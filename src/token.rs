use vstd::prelude::*;

verus! {

/// A node of the syntax tree of an arithmetic expression. Each binary node
/// owns its two operands; a number keeps the text of its literal.
#[derive(Debug, PartialEq)]
pub enum Token {
    Number { value: String },
    Add { left: Box<Token>, right: Box<Token> },
    Subtract { left: Box<Token>, right: Box<Token> },
    Multiply { left: Box<Token>, right: Box<Token> },
    Divide { left: Box<Token>, right: Box<Token> },
}

/// The mathematical model of a syntax tree.
pub enum Expr {
    Num(Seq<char>),
    Add(Box<Expr>, Box<Expr>),
    Sub(Box<Expr>, Box<Expr>),
    Mul(Box<Expr>, Box<Expr>),
    Div(Box<Expr>, Box<Expr>),
}

impl Token {
    /// The model of the tree rooted here.
    pub open spec fn model(&self) -> Expr
        decreases self,
    {
        match self {
            Token::Number { value } => Expr::Num(value@),
            Token::Add { left, right } => Expr::Add(Box::new(left.model()), Box::new(right.model())),
            Token::Subtract { left, right } => Expr::Sub(
                Box::new(left.model()),
                Box::new(right.model()),
            ),
            Token::Multiply { left, right } => Expr::Mul(
                Box::new(left.model()),
                Box::new(right.model()),
            ),
            Token::Divide { left, right } => Expr::Div(
                Box::new(left.model()),
                Box::new(right.model()),
            ),
        }
    }
}

impl View for Token {
    type V = Expr;

    open spec fn view(&self) -> Expr {
        self.model()
    }
}

} // verus!
