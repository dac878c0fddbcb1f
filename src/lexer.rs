use vstd::prelude::*;
use vstd::string::StrSliceExecFns;

verus! {

/// A classified unit of input text. A number keeps the exact text of its
/// literal (sign, digits and decimal point), so no precision is lost before
/// evaluation.
#[derive(Debug)]
pub enum Lexeme {
    Number { value: String },
    OpenParen,
    CloseParen,
    Plus,
    Minus,
    Star,
    Slash,
    EOF,
}

/// The mathematical model of a lexeme: the literal of a number as characters.
pub enum Lex {
    Num(Seq<char>),
    Open,
    Close,
    Plus,
    Minus,
    Star,
    Slash,
    End,
}

impl View for Lexeme {
    type V = Lex;

    open spec fn view(&self) -> Lex {
        match self {
            Lexeme::Number { value } => Lex::Num(value@),
            Lexeme::OpenParen => Lex::Open,
            Lexeme::CloseParen => Lex::Close,
            Lexeme::Plus => Lex::Plus,
            Lexeme::Minus => Lex::Minus,
            Lexeme::Star => Lex::Star,
            Lexeme::Slash => Lex::Slash,
            Lexeme::EOF => Lex::End,
        }
    }
}

impl PartialEq for Lexeme {
    fn eq(&self, other: &Lexeme) -> (r: bool) {
        match (self, other) {
            (Lexeme::Number { value: a }, Lexeme::Number { value: b }) => a.eq(b),
            (Lexeme::OpenParen, Lexeme::OpenParen) => true,
            (Lexeme::CloseParen, Lexeme::CloseParen) => true,
            (Lexeme::Plus, Lexeme::Plus) => true,
            (Lexeme::Minus, Lexeme::Minus) => true,
            (Lexeme::Star, Lexeme::Star) => true,
            (Lexeme::Slash, Lexeme::Slash) => true,
            (Lexeme::EOF, Lexeme::EOF) => true,
            _ => false,
        }
    }
}

impl vstd::std_specs::cmp::PartialEqSpecImpl for Lexeme {
    open spec fn obeys_eq_spec() -> bool {
        true
    }

    open spec fn eq_spec(&self, other: &Lexeme) -> bool {
        self@ == other@
    }
}

/// The views of a sequence of lexemes.
pub open spec fn lexes(ls: Seq<Lexeme>) -> Seq<Lex> {
    ls.map_values(|l: Lexeme| l@)
}

pub open spec fn is_space(c: char) -> bool {
    c == ' ' || c == '\t' || c == '\n' || c == '\r'
}

pub open spec fn is_digit(c: char) -> bool {
    '0' <= c && c <= '9'
}

/// The end of a number literal whose digits continue at `j`: a maximal run of
/// digits holding at most one decimal point (`seen_point` tells whether one
/// came already).
pub open spec fn number_end(s: Seq<char>, j: int, seen_point: bool) -> int
    decreases s.len() - j,
{
    if 0 <= j < s.len() && (is_digit(s[j]) || (s[j] == '.' && !seen_point)) {
        number_end(s, j + 1, seen_point || s[j] == '.')
    } else {
        j
    }
}

/// Whether a number literal starts at `i`: a digit, or a minus sign directly
/// followed by a digit where no operand precedes it (`after_operand` is true
/// when the previous lexeme is a number or a closing parenthesis).
pub open spec fn starts_number(s: Seq<char>, i: int, after_operand: bool) -> bool {
    is_digit(s[i]) || (s[i] == '-' && !after_operand && i + 1 < s.len() && is_digit(s[i + 1]))
}

/// The lexemes of `s` from position `i` on. Whitespace is skipped; any
/// character that starts no lexeme ends the scan, as does the end of the text,
/// and either way a single end marker closes the sequence.
pub open spec fn lex_from(s: Seq<char>, i: int, after_operand: bool) -> Seq<Lex>
    decreases s.len() - i,
{
    if i < 0 || i >= s.len() {
        seq![Lex::End]
    } else if is_space(s[i]) {
        lex_from(s, i + 1, after_operand)
    } else if starts_number(s, i, after_operand) {
        let j = number_end(s, if s[i] == '-' { i + 2 } else { i + 1 }, false);
        if i < j <= s.len() {
            seq![Lex::Num(s.subrange(i, j))] + lex_from(s, j, true)
        } else {
            seq![Lex::End]
        }
    } else if s[i] == '(' {
        seq![Lex::Open] + lex_from(s, i + 1, false)
    } else if s[i] == ')' {
        seq![Lex::Close] + lex_from(s, i + 1, true)
    } else if s[i] == '+' {
        seq![Lex::Plus] + lex_from(s, i + 1, false)
    } else if s[i] == '-' {
        seq![Lex::Minus] + lex_from(s, i + 1, false)
    } else if s[i] == '*' {
        seq![Lex::Star] + lex_from(s, i + 1, false)
    } else if s[i] == '/' {
        seq![Lex::Slash] + lex_from(s, i + 1, false)
    } else {
        seq![Lex::End]
    }
}

/// The lexemes of a whole text.
pub open spec fn lex_of(s: Seq<char>) -> Seq<Lex> {
    lex_from(s, 0, false)
}

proof fn lemma_number_end_bounds(s: Seq<char>, j: int, seen_point: bool)
    requires
        0 <= j <= s.len(),
    ensures
        j <= number_end(s, j, seen_point) <= s.len(),
    decreases s.len() - j,
{
    if 0 <= j < s.len() && (is_digit(s[j]) || (s[j] == '.' && !seen_point)) {
        lemma_number_end_bounds(s, j + 1, seen_point || s[j] == '.');
    }
}

/// The last element of a lexeme sequence is the end marker, and it occurs
/// nowhere else.
pub proof fn lemma_lex_ends_once(s: Seq<char>, i: int, after_operand: bool)
    ensures
        lex_from(s, i, after_operand).len() > 0,
        lex_from(s, i, after_operand).last() == Lex::End,
        forall|k: int|
            0 <= k < lex_from(s, i, after_operand).len() - 1 ==> lex_from(
                s,
                i,
                after_operand,
            )[k] != Lex::End,
    decreases s.len() - i,
{
    if i < 0 || i >= s.len() {
    } else if is_space(s[i]) {
        lemma_lex_ends_once(s, i + 1, after_operand);
    } else if starts_number(s, i, after_operand) {
        let j = number_end(s, if s[i] == '-' { i + 2 } else { i + 1 }, false);
        if i < j <= s.len() {
            lemma_lex_ends_once(s, j, true);
            let rest = lex_from(s, j, true);
            assert(lex_from(s, i, after_operand) == seq![Lex::Num(s.subrange(i, j))] + rest);
        }
    } else if s[i] == '(' || s[i] == '+' || s[i] == '-' || s[i] == '*' || s[i] == '/' {
        lemma_lex_ends_once(s, i + 1, false);
    } else if s[i] == ')' {
        lemma_lex_ends_once(s, i + 1, true);
    }
}

/// The characters of `text`, in order.
fn chars_of(text: &str) -> (r: Vec<char>)
    ensures
        r@ == text@,
{
    let n = text.unicode_len();
    let mut r: Vec<char> = Vec::new();
    let mut i: usize = 0;
    while i < n
        invariant
            n == text@.len(),
            i <= n,
            r@ == text@.subrange(0, i as int),
        decreases n - i,
    {
        r.push(text.get_char(i));
        i = i + 1;
    }
    assert(r@ =~= text@);
    r
}

/// Scans `text` left to right into lexemes, closed by a single `EOF`.
/// Scanning never fails: a character that starts no lexeme ends it.
pub fn lex(text: &str) -> (r: Vec<Lexeme>)
    ensures
        lexes(r@) == lex_of(text@),
        r@.len() > 0,
        r@[r@.len() - 1] == Lexeme::EOF,
{
    let chars = chars_of(text);
    let n = chars.len();
    let mut out: Vec<Lexeme> = Vec::new();
    let mut i: usize = 0;
    let mut after_operand = false;
    proof {
        lemma_lex_ends_once(text@, 0, false);
    }
    loop
        invariant_except_break
            lexes(out@) + lex_from(text@, i as int, after_operand) == lex_of(text@),
        invariant
            chars@ == text@,
            n == chars@.len(),
            i <= n,
        ensures
            lexes(out@) == lex_of(text@),
        decreases n - i,
    {
        if i >= n {
            out.push(Lexeme::EOF);
            assert(lexes(out@) =~= lex_of(text@));
            break;
        }
        let c = chars[i];
        if c == ' ' || c == '\t' || c == '\n' || c == '\r' {
            i = i + 1;
            continue;
        }
        let digit_follows = i + 1 < n && '0' <= chars[i + 1] && chars[i + 1] <= '9';
        if ('0' <= c && c <= '9') || (c == '-' && !after_operand && digit_follows) {
            let mut j: usize = if c == '-' { i + 2 } else { i + 1 };
            let mut seen_point = false;
            let ghost first = j as int;
            proof {
                lemma_number_end_bounds(text@, first, false);
            }
            while j < n && (('0' <= chars[j] && chars[j] <= '9') || (chars[j] == '.'
                && !seen_point))
                invariant
                    chars@ == text@,
                    n == chars@.len(),
                    i < j <= n,
                    number_end(text@, j as int, seen_point) == number_end(text@, first, false),
                decreases n - j,
            {
                seen_point = seen_point || chars[j] == '.';
                j = j + 1;
            }
            let value = text.substring_char(i, j).to_owned();
            let ghost before = lexes(out@);
            out.push(Lexeme::Number { value });
            assert(lexes(out@) =~= before + seq![Lex::Num(text@.subrange(i as int, j as int))]);
            i = j;
            after_operand = true;
            continue;
        }
        let l = if c == '(' {
            Lexeme::OpenParen
        } else if c == ')' {
            Lexeme::CloseParen
        } else if c == '+' {
            Lexeme::Plus
        } else if c == '-' {
            Lexeme::Minus
        } else if c == '*' {
            Lexeme::Star
        } else if c == '/' {
            Lexeme::Slash
        } else {
            Lexeme::EOF
        };
        let ghost before = lexes(out@);
        let stop = match l {
            Lexeme::EOF => true,
            _ => false,
        };
        after_operand = c == ')';
        out.push(l);
        assert(lexes(out@) =~= before + seq![l@]);
        if stop {
            assert(lexes(out@) =~= lex_of(text@));
            break;
        }
        i = i + 1;
    }
    proof {
        assert(lexes(out@)[out@.len() - 1] == Lex::End);
    }
    out
}

} // verus!
