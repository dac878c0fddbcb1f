use vstd::prelude::*;

use crate::lexer::{lexes, Lex, Lexeme};
use crate::token::{Expr, Token};

verus! {

/// Why a lexeme sequence is not an expression.
#[derive(Debug, Clone, Copy, PartialEq, Eq, Structural)]
pub enum ParseError {
    /// A number was required, and something else stood there.
    ExpectedNumber,
    /// A parenthesised expression was not followed by `)`.
    UnterminatedParentheses,
}

/// The lexeme at `i`; past either end, the end marker.
pub open spec fn lex_at(t: Seq<Lex>, i: int) -> Lex {
    if 0 <= i < t.len() {
        t[i]
    } else {
        Lex::End
    }
}

/// `NUMBER`, read from position `i`: the number and the position after it,
/// or the error.
pub open spec fn number_at(t: Seq<Lex>, i: int) -> Result<(Expr, int), ParseError> {
    match lex_at(t, i) {
        Lex::Num(v) => Ok((Expr::Num(v), i + 1)),
        _ => Err(ParseError::ExpectedNumber),
    }
}

/// `atom := NUMBER | '(' expression ')'`, read from position `i`: the tree and
/// the position after it, or the error.
pub open spec fn atom_at(t: Seq<Lex>, i: int) -> Result<(Expr, int), ParseError>
    decreases t.len() - i, 0int,
{
    match lex_at(t, i) {
        Lex::Open => match expr_at(t, i + 1) {
            Ok((e, j)) => if lex_at(t, j) == Lex::Close {
                Ok((e, j + 1))
            } else {
                Err(ParseError::UnterminatedParentheses)
            },
            Err(x) => Err(x),
        },
        _ => number_at(t, i),
    }
}

// In the four functions below, a sub-parse that succeeded always moved past
// at least one lexeme and stayed in the sequence; the test of that only makes
// the recursion visibly terminate.

/// The rest of a `term` at `i`, with `left` as the operand read so far:
/// `(('*' | '/') atom)*`, folded to the left.
pub open spec fn term_tail(t: Seq<Lex>, left: Expr, i: int) -> Result<(Expr, int), ParseError>
    decreases t.len() - i, 1int,
{
    match lex_at(t, i) {
        Lex::Star => match atom_at(t, i + 1) {
            Ok((r, j)) => if i < j <= t.len() {
                term_tail(t, Expr::Mul(Box::new(left), Box::new(r)), j)
            } else {
                Err(ParseError::ExpectedNumber)
            },
            Err(x) => Err(x),
        },
        Lex::Slash => match atom_at(t, i + 1) {
            Ok((r, j)) => if i < j <= t.len() {
                term_tail(t, Expr::Div(Box::new(left), Box::new(r)), j)
            } else {
                Err(ParseError::ExpectedNumber)
            },
            Err(x) => Err(x),
        },
        _ => Ok((left, i)),
    }
}

/// `term := atom (('*' | '/') atom)*`, read from position `i`.
pub open spec fn term_at(t: Seq<Lex>, i: int) -> Result<(Expr, int), ParseError>
    decreases t.len() - i, 2int,
{
    match atom_at(t, i) {
        Ok((l, j)) => if i <= j <= t.len() {
            term_tail(t, l, j)
        } else {
            Err(ParseError::ExpectedNumber)
        },
        Err(x) => Err(x),
    }
}

/// The rest of an `expression` at `i`, with `left` as the operand read so
/// far: `(('+' | '-') term)*`, folded to the left.
pub open spec fn expr_tail(t: Seq<Lex>, left: Expr, i: int) -> Result<(Expr, int), ParseError>
    decreases t.len() - i, 3int,
{
    match lex_at(t, i) {
        Lex::Plus => match term_at(t, i + 1) {
            Ok((r, j)) => if i < j <= t.len() {
                expr_tail(t, Expr::Add(Box::new(left), Box::new(r)), j)
            } else {
                Err(ParseError::ExpectedNumber)
            },
            Err(x) => Err(x),
        },
        Lex::Minus => match term_at(t, i + 1) {
            Ok((r, j)) => if i < j <= t.len() {
                expr_tail(t, Expr::Sub(Box::new(left), Box::new(r)), j)
            } else {
                Err(ParseError::ExpectedNumber)
            },
            Err(x) => Err(x),
        },
        _ => Ok((left, i)),
    }
}

/// `expression := term (('+' | '-') term)*`, read from position `i`.
pub open spec fn expr_at(t: Seq<Lex>, i: int) -> Result<(Expr, int), ParseError>
    decreases t.len() - i, 4int,
{
    match term_at(t, i) {
        Ok((l, j)) => if i <= j <= t.len() {
            expr_tail(t, l, j)
        } else {
            Err(ParseError::ExpectedNumber)
        },
        Err(x) => Err(x),
    }
}

/// The meaning of a whole lexeme sequence: no expression when it starts with
/// the end marker, else one expression that reaches up to the end marker. A
/// lexeme left over after the expression stands where no operator may follow
/// it, so a number was expected there.
pub open spec fn parse_of(t: Seq<Lex>) -> Result<Option<Expr>, ParseError> {
    if lex_at(t, 0) == Lex::End {
        Ok(None)
    } else {
        match expr_at(t, 0) {
            Ok((e, j)) => if lex_at(t, j) == Lex::End {
                Ok(Some(e))
            } else {
                Err(ParseError::ExpectedNumber)
            },
            Err(x) => Err(x),
        }
    }
}

/// The model of what a parsing method returned, with the cursor after it.
pub open spec fn outcome(r: Result<Token, ParseError>, end: usize) -> Result<(Expr, int), ParseError> {
    match r {
        Ok(e) => Ok((e@, end as int)),
        Err(x) => Err(x),
    }
}

/// The model of what `parse` returned.
pub open spec fn tree_outcome(r: Result<Option<Token>, ParseError>) -> Result<Option<Expr>, ParseError> {
    match r {
        Ok(Some(e)) => Ok(Some(e@)),
        Ok(None) => Ok(None),
        Err(x) => Err(x),
    }
}

/// Given an ordered sequence of lexemes closed by `EOF`, builds the syntax
/// tree of the expression it holds. A sequence that is only `EOF` holds no
/// expression; one with lexemes left after its expression is an error.
pub fn parse(lexemes: Vec<Lexeme>) -> (r: Result<Option<Token>, ParseError>)
    requires
        lexemes@.len() > 0,
        lexemes@[lexemes@.len() - 1] == Lexeme::EOF,
    ensures
        tree_outcome(r) == parse_of(lexes(lexemes@)),
{
    if lexemes[0] == Lexeme::EOF {
        Ok(None)
    } else {
        let mut parser = Parser { index: 0, lexemes };
        match parser.parse() {
            Ok(e) => {
                proof {
                    let k = parser.index as int;
                    assert(lex_at(parser.tokens(), k) == parser.lexemes@[k]@);
                }
                if parser.has(Lexeme::EOF) {
                    Ok(Some(e))
                } else {
                    Err(ParseError::ExpectedNumber)
                }
            },
            Err(x) => Err(x),
        }
    }
}

/// A cursor over a lexeme sequence. It only moves forward.
pub struct Parser {
    pub index: usize,
    pub lexemes: Vec<Lexeme>,
}

impl Parser {
    /// The models of the lexemes.
    pub open spec fn tokens(&self) -> Seq<Lex> {
        lexes(self.lexemes@)
    }

    /// The cursor stands on a lexeme, and the sequence ends with the end
    /// marker, which the cursor never passes.
    pub open spec fn wf(&self) -> bool {
        &&& self.index < self.lexemes@.len()
        &&& self.lexemes@[self.lexemes@.len() - 1] == Lexeme::EOF
    }

    fn parse(&mut self) -> (r: Result<Token, ParseError>)
        requires
            old(self).wf(),
        ensures
            final(self).wf(),
            final(self).lexemes@ == old(self).lexemes@,
            outcome(r, final(self).index) == expr_at(old(self).tokens(), old(self).index as int),
            r is Ok ==> old(self).index < final(self).index,
        decreases old(self).lexemes@.len() - old(self).index, 5int,
    {
        self.parse_add()
    }

    fn parse_add(&mut self) -> (r: Result<Token, ParseError>)
        requires
            old(self).wf(),
        ensures
            final(self).wf(),
            final(self).lexemes@ == old(self).lexemes@,
            outcome(r, final(self).index) == expr_at(old(self).tokens(), old(self).index as int),
            r is Ok ==> old(self).index < final(self).index,
        decreases old(self).lexemes@.len() - old(self).index, 4int,
    {
        let ghost ls = self.lexemes@;
        let ghost t = self.tokens();
        let ghost start = self.index as int;
        let mut left = match self.parse_multiply() {
            Ok(l) => l,
            Err(x) => return Err(x),
        };
        loop
            invariant
                self.wf(),
                self.lexemes@ == ls,
                ls == old(self).lexemes@,
                start == old(self).index,
                t == lexes(ls),
                start < self.index,
                expr_at(t, start) == expr_tail(t, left@, self.index as int),
            decreases self.lexemes@.len() - self.index,
        {
            let ghost i = self.index as int;
            proof {
                assert(lex_at(t, i) == self.lexemes@[i]@);
            }
            left = match self.current() {
                Lexeme::Plus => {
                    self.advance();
                    let right = match self.parse_multiply() {
                        Ok(r) => r,
                        Err(x) => return Err(x),
                    };
                    Token::Add { left: Box::new(left), right: Box::new(right) }
                },
                Lexeme::Minus => {
                    self.advance();
                    let right = match self.parse_multiply() {
                        Ok(r) => r,
                        Err(x) => return Err(x),
                    };
                    Token::Subtract { left: Box::new(left), right: Box::new(right) }
                },
                _ => return Ok(left),
            };
        }
    }

    fn parse_multiply(&mut self) -> (r: Result<Token, ParseError>)
        requires
            old(self).wf(),
        ensures
            final(self).wf(),
            final(self).lexemes@ == old(self).lexemes@,
            outcome(r, final(self).index) == term_at(old(self).tokens(), old(self).index as int),
            r is Ok ==> old(self).index < final(self).index,
        decreases old(self).lexemes@.len() - old(self).index, 2int,
    {
        let ghost ls = self.lexemes@;
        let ghost t = self.tokens();
        let ghost start = self.index as int;
        let mut left = match self.parse_atom() {
            Ok(l) => l,
            Err(x) => return Err(x),
        };
        loop
            invariant
                self.wf(),
                self.lexemes@ == ls,
                ls == old(self).lexemes@,
                start == old(self).index,
                t == lexes(ls),
                start < self.index,
                term_at(t, start) == term_tail(t, left@, self.index as int),
            decreases self.lexemes@.len() - self.index,
        {
            let ghost i = self.index as int;
            proof {
                assert(lex_at(t, i) == self.lexemes@[i]@);
            }
            left = match self.current() {
                Lexeme::Star => {
                    self.advance();
                    let right = match self.parse_atom() {
                        Ok(r) => r,
                        Err(x) => return Err(x),
                    };
                    Token::Multiply { left: Box::new(left), right: Box::new(right) }
                },
                Lexeme::Slash => {
                    self.advance();
                    let right = match self.parse_atom() {
                        Ok(r) => r,
                        Err(x) => return Err(x),
                    };
                    Token::Divide { left: Box::new(left), right: Box::new(right) }
                },
                _ => return Ok(left),
            };
        }
    }

    /// Parses an atom: either a parenthesised expression or a number.
    fn parse_atom(&mut self) -> (r: Result<Token, ParseError>)
        requires
            old(self).wf(),
        ensures
            final(self).wf(),
            final(self).lexemes@ == old(self).lexemes@,
            outcome(r, final(self).index) == atom_at(old(self).tokens(), old(self).index as int),
            r is Ok ==> old(self).index < final(self).index,
        decreases old(self).lexemes@.len() - old(self).index, 0int,
    {
        let ghost t = self.tokens();
        let ghost i = self.index as int;
        proof {
            assert(lex_at(t, i) == self.lexemes@[i]@);
        }
        match self.current() {
            Lexeme::OpenParen => {
                self.advance();
                let value = match self.parse() {
                    Ok(v) => v,
                    Err(x) => return Err(x),
                };
                proof {
                    assert(lex_at(t, self.index as int) == self.lexemes@[self.index as int]@);
                }
                if !self.has(Lexeme::CloseParen) {
                    return Err(ParseError::UnterminatedParentheses);
                }
                self.advance();
                Ok(value)
            },
            _ => self.parse_number(),
        }
    }

    fn parse_number(&mut self) -> (r: Result<Token, ParseError>)
        requires
            old(self).wf(),
        ensures
            final(self).wf(),
            final(self).lexemes@ == old(self).lexemes@,
            outcome(r, final(self).index) == number_at(old(self).tokens(), old(self).index as int),
            r is Ok ==> old(self).index < final(self).index,
    {
        let ghost t = self.tokens();
        let ghost i = self.index as int;
        proof {
            assert(lex_at(t, i) == self.lexemes@[i]@);
        }
        match self.current() {
            Lexeme::Number { .. } => {},
            _ => return Err(ParseError::ExpectedNumber),
        }
        match self.next() {
            Lexeme::Number { value } => Ok(Token::Number { value }),
            _ => Err(ParseError::ExpectedNumber),
        }
    }
}

// Parser helpers
impl Parser {
    pub fn in_bounds(&self) -> (r: bool)
        ensures
            r == (self.index < self.lexemes@.len()),
    {
        self.index < self.lexemes.len()
    }

    /// Whether the cursor stands on a lexeme equal to `l`.
    pub fn has(&self, l: Lexeme) -> (r: bool)
        ensures
            r == (self.index < self.lexemes@.len() && self.lexemes@[self.index as int]@ == l@),
    {
        self.in_bounds() && self.lexemes[self.index] == l
    }

    /// Moves past the lexeme under the cursor and returns it.
    pub fn next(&mut self) -> (r: Lexeme)
        requires
            old(self).index < old(self).lexemes@.len(),
        ensures
            r == old(self).lexemes@[old(self).index as int],
            final(self).index == old(self).index + 1,
            final(self).lexemes@ == old(self).lexemes@,
    {
        let r = match self.current() {
            Lexeme::Number { value } => Lexeme::Number { value: value.clone() },
            Lexeme::OpenParen => Lexeme::OpenParen,
            Lexeme::CloseParen => Lexeme::CloseParen,
            Lexeme::Plus => Lexeme::Plus,
            Lexeme::Minus => Lexeme::Minus,
            Lexeme::Star => Lexeme::Star,
            Lexeme::Slash => Lexeme::Slash,
            Lexeme::EOF => Lexeme::EOF,
        };
        // the cursor stands below a length that is a `usize`, so this step stays in range
        let len = self.lexemes.len();
        assert(self.index < len);
        self.index = self.index + 1;
        r
    }

    /// Moves the cursor one lexeme forward.
    pub fn advance(&mut self)
        requires
            old(self).index < old(self).lexemes@.len(),
        ensures
            final(self).index == old(self).index + 1,
            final(self).lexemes@ == old(self).lexemes@,
    {
        // the cursor stands below a length that is a `usize`, so this step stays in range
        let len = self.lexemes.len();
        assert(self.index < len);
        self.index = self.index + 1;
    }

    /// The lexeme under the cursor.
    pub fn current(&self) -> (r: &Lexeme)
        requires
            self.index < self.lexemes@.len(),
        ensures
            *r == self.lexemes@[self.index as int],
    {
        &self.lexemes[self.index]
    }
}

} // verus!
