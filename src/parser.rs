use vstd::prelude::*;
use crate::ast::{Ast, AstModel, Literal, LiteralModel, Operation, Operator, names_model};
use crate::token::{Token, TokenExt};

verus! {

/// What the parser was looking for when it met an unexpected token.
#[derive(Debug, Clone, Copy, PartialEq, Eq)]
pub enum Expected {
    Expression,
    ClosingParen,
    ClosingCurly,
    Identifier,
    FunctionName,
    Assignment,
    OpeningParen,
    Semicolon,
}

/// A parse error. `found` holds the offending lexeme, or `None` at the end of
/// the source.
#[derive(Debug, Clone, PartialEq)]
pub enum Error {
    /// A token that matches no operator reached an operator conversion.
    Internal,
    UnexpectedToken { expected: Expected, found: Option<String> },
    /// The expression nests deeper than the parser allows.
    TooDeep,
}

/// Where and why a parse fails, in the grammar's terms.
pub enum Failure {
    Unexpected { expected: Expected, at: int },
    TooDeep,
}

/// The number of the binding level that parses a whole expression.
pub const EXPRESSION: usize = 6;

/// How many productions may be open at once while parsing one expression.
pub const MAX_NESTING: usize = 1000;

pub open spec fn token_at(ts: Seq<TokenExt>, i: int) -> Option<Token> {
    if 0 <= i < ts.len() {
        Some(ts[i].token)
    } else {
        None
    }
}

pub open spec fn fail<T>(expected: Expected, at: int) -> Result<T, Failure> {
    Err(Failure::Unexpected { expected, at })
}

pub open spec fn unary_operator(t: Option<Token>) -> Option<Operator> {
    match t {
        Some(Token::Bang) => Some(Operator::Not),
        Some(Token::Minus) => Some(Operator::Negate),
        _ => None,
    }
}

/// The operator that `t` stands for at binding level `level`: 3 for factors,
/// 4 for terms, 5 for comparisons, 6 for equality.
pub open spec fn binary_operator(level: int, t: Option<Token>) -> Option<Operator> {
    if level == 3 {
        match t {
            Some(Token::Star) => Some(Operator::Multiply),
            Some(Token::Slash) => Some(Operator::Divide),
            _ => None,
        }
    } else if level == 4 {
        match t {
            Some(Token::Plus) => Some(Operator::Add),
            Some(Token::Minus) => Some(Operator::Subtract),
            _ => None,
        }
    } else if level == 5 {
        match t {
            Some(Token::Greater) => Some(Operator::Greater),
            Some(Token::GreaterEqual) => Some(Operator::GreaterEqual),
            Some(Token::Less) => Some(Operator::Less),
            Some(Token::LessEqual) => Some(Operator::LessEqual),
            _ => None,
        }
    } else if level == 6 {
        match t {
            Some(Token::EqualEqual) => Some(Operator::Equal),
            Some(Token::BangEqual) => Some(Operator::NotEqual),
            _ => None,
        }
    } else {
        None
    }
}

pub open spec fn literal_of(t: Token) -> Option<LiteralModel> {
    match t {
        Token::Nil => Some(LiteralModel::Nil),
        Token::Bool(b) => Some(LiteralModel::Bool(b)),
        Token::Integer(n) => Some(LiteralModel::Integer(n)),
        Token::Float(s) => Some(LiteralModel::Float(s@)),
        Token::Str(s) => Some(LiteralModel::Str(s@)),
        _ => None,
    }
}

/// The expression at binding level `level` that starts at token `i`, and the
/// index after it. Levels from loosest to tightest: 6 equality, 5 comparison,
/// 4 term, 3 factor, 2 unary, 1 call, 0 primary.
pub open spec fn parse_level(ts: Seq<TokenExt>, i: int, level: int, depth: nat) -> Result<
    (AstModel, int),
    Failure,
>
    decreases ts.len() - i, level + 1,
{
    if !(0 <= i <= ts.len() && 0 <= level <= 6) {
        fail(Expected::Expression, i)
    } else if depth == 0 {
        Err(Failure::TooDeep)
    } else if level == 0 {
        parse_primary(ts, i, (depth - 1) as nat)
    } else if level == 1 {
        match parse_level(ts, i, 0, (depth - 1) as nat) {
            Ok((a, j)) => if j <= i || j > ts.len() {
                fail(Expected::Expression, i)
            } else {
                parse_calls(ts, j, a, (depth - 1) as nat)
            },
            Err(e) => Err(e),
        }
    } else if level == 2 {
        match unary_operator(token_at(ts, i)) {
            Some(op) => match parse_level(ts, i + 1, 2, (depth - 1) as nat) {
                Ok((a, j)) => Ok((AstModel::Unary(op, Box::new(a)), j)),
                Err(e) => Err(e),
            },
            None => parse_level(ts, i, 1, (depth - 1) as nat),
        }
    } else {
        match parse_level(ts, i, level - 1, (depth - 1) as nat) {
            Ok((a, j)) => if j <= i || j > ts.len() {
                fail(Expected::Expression, i)
            } else {
                parse_fold(ts, j, level, a, (depth - 1) as nat)
            },
            Err(e) => Err(e),
        }
    }
}

/// Folds `lhs` left-associatively with each following operator of `level`
/// and its right operand.
pub open spec fn parse_fold(
    ts: Seq<TokenExt>,
    i: int,
    level: int,
    lhs: AstModel,
    depth: nat,
) -> Result<
    (AstModel, int),
    Failure,
>
    decreases ts.len() - i, 0int,
{
    if !(0 <= i <= ts.len()) {
        Ok((lhs, i))
    } else {
        match binary_operator(level, token_at(ts, i)) {
            Some(op) => match parse_level(ts, i + 1, level - 1, depth) {
                Ok((b, j)) => if j <= i || j > ts.len() {
                    fail(Expected::Expression, i)
                } else {
                    parse_fold(
                        ts,
                        j,
                        level,
                        AstModel::Binary(op, Box::new(lhs), Box::new(b)),
                        depth,
                    )
                },
                Err(e) => Err(e),
            },
            None => Ok((lhs, i)),
        }
    }
}

/// Applies `callee` to each parenthesized argument list that follows it.
pub open spec fn parse_calls(ts: Seq<TokenExt>, i: int, callee: AstModel, depth: nat) -> Result<
    (AstModel, int),
    Failure,
>
    decreases ts.len() - i, 0int,
{
    if !(0 <= i <= ts.len()) {
        Ok((callee, i))
    } else if token_at(ts, i) == Some(Token::ParenLeft) {
        match parse_args(ts, i + 1, Seq::empty(), depth) {
            Ok((args, j)) => if j <= i || j > ts.len() {
                fail(Expected::Expression, i)
            } else {
                parse_calls(ts, j, AstModel::Application(Box::new(callee), args), depth)
            },
            Err(e) => Err(e),
        }
    } else {
        Ok((callee, i))
    }
}

/// Comma-separated arguments up to and including the closing `)`.
pub open spec fn parse_args(ts: Seq<TokenExt>, i: int, acc: Seq<AstModel>, depth: nat) -> Result<
    (Seq<AstModel>, int),
    Failure,
>
    decreases ts.len() - i, 8int,
{
    if !(0 <= i <= ts.len()) {
        fail(Expected::ClosingParen, i)
    } else if token_at(ts, i) == Some(Token::ParenRight) {
        Ok((acc, i + 1))
    } else {
        match parse_level(ts, i, 6, depth) {
            Ok((a, j)) => if j <= i || j > ts.len() {
                fail(Expected::Expression, i)
            } else if token_at(ts, j) == Some(Token::Comma) {
                parse_args(ts, j + 1, acc.push(a), depth)
            } else if token_at(ts, j) == Some(Token::ParenRight) {
                Ok((acc.push(a), j + 1))
            } else {
                fail(Expected::ClosingParen, j)
            },
            Err(e) => Err(e),
        }
    }
}

/// `;`-separated expressions of a block up to and including the closing `}`.
pub open spec fn parse_block(ts: Seq<TokenExt>, i: int, acc: Seq<AstModel>, depth: nat) -> Result<
    (Seq<AstModel>, int),
    Failure,
>
    decreases ts.len() - i, 8int,
{
    if !(0 <= i <= ts.len()) {
        fail(Expected::Expression, i)
    } else {
        match parse_level(ts, i, 6, depth) {
            Ok((a, j)) => if j <= i || j > ts.len() {
                fail(Expected::Expression, i)
            } else if token_at(ts, j) == Some(Token::Semicolon) {
                parse_block(ts, j + 1, acc.push(a), depth)
            } else if token_at(ts, j) == Some(Token::CurlyRight) {
                Ok((acc.push(a), j + 1))
            } else {
                fail(Expected::ClosingCurly, j)
            },
            Err(e) => Err(e),
        }
    }
}

/// Parameter names separated by commas, a trailing comma allowed.
pub open spec fn parse_params(ts: Seq<TokenExt>, i: int, acc: Seq<Seq<char>>) -> (
    Seq<Seq<char>>,
    int,
)
    decreases ts.len() - i,
{
    if !(0 <= i < ts.len()) {
        (acc, i)
    } else {
        match ts[i].token {
            Token::Identifier(x) => if token_at(ts, i + 1) == Some(Token::Comma) {
                parse_params(ts, i + 2, acc.push(x@))
            } else {
                (acc.push(x@), i + 1)
            },
            _ => (acc, i),
        }
    }
}

pub open spec fn parse_primary(ts: Seq<TokenExt>, i: int, depth: nat) -> Result<
    (AstModel, int),
    Failure,
>
    decreases ts.len() - i, 0int,
{
    if !(0 <= i < ts.len()) {
        fail(Expected::Expression, i)
    } else {
        let t = ts[i].token;
        if literal_of(t) is Some {
            Ok((AstModel::Literal(literal_of(t)->Some_0), i + 1))
        } else {
            match t {
                Token::Identifier(name) => Ok((AstModel::Reference(name@), i + 1)),
                Token::ParenLeft => match parse_level(ts, i + 1, 6, depth) {
                    Ok((a, j)) => if token_at(ts, j) == Some(Token::ParenRight) {
                        Ok((AstModel::Grouping(seq![a]), j + 1))
                    } else {
                        fail(Expected::ClosingParen, j)
                    },
                    Err(e) => Err(e),
                },
                Token::CurlyLeft => if token_at(ts, i + 1) == Some(Token::CurlyRight) {
                    Ok((AstModel::Grouping(Seq::empty()), i + 2))
                } else {
                    match parse_block(ts, i + 1, Seq::empty(), depth) {
                        Ok((items, j)) => Ok((AstModel::Grouping(items), j)),
                        Err(e) => Err(e),
                    }
                },
                Token::Let => match token_at(ts, i + 1) {
                    Some(Token::Identifier(name)) => if token_at(ts, i + 2) == Some(Token::Equal) {
                        match parse_level(ts, i + 3, 6, depth) {
                            Ok((a, j)) => Ok((AstModel::Declaration(name@, Box::new(a)), j)),
                            Err(e) => Err(e),
                        }
                    } else {
                        fail(Expected::Assignment, i + 2)
                    },
                    _ => fail(Expected::Identifier, i + 1),
                },
                Token::Function => match token_at(ts, i + 1) {
                    Some(Token::Identifier(name)) => if token_at(ts, i + 2) == Some(
                        Token::ParenLeft,
                    ) {
                        let (ps, j) = parse_params(ts, i + 3, Seq::empty());
                        if j < i + 3 {
                            fail(Expected::ClosingParen, j)
                        } else if token_at(ts, j) == Some(Token::ParenRight) {
                            match parse_level(ts, j + 1, 6, depth) {
                                Ok((body, k)) => Ok(
                                    (
                                        AstModel::Declaration(
                                            name@,
                                            Box::new(AstModel::Function(ps, Box::new(body))),
                                        ),
                                        k,
                                    ),
                                ),
                                Err(e) => Err(e),
                            }
                        } else {
                            fail(Expected::ClosingParen, j)
                        }
                    } else {
                        fail(Expected::OpeningParen, i + 2)
                    },
                    _ => fail(Expected::FunctionName, i + 1),
                },
                _ => fail(Expected::Expression, i),
            }
        }
    }
}

/// A program: expressions separated by `;`, a trailing `;` allowed.
pub open spec fn parse_program_from(ts: Seq<TokenExt>, i: int, acc: Seq<AstModel>) -> Result<
    Seq<AstModel>,
    Failure,
>
    decreases ts.len() - i,
{
    if !(0 <= i < ts.len()) {
        Ok(acc)
    } else {
        match parse_level(ts, i, 6, MAX_NESTING as nat) {
            Ok((a, j)) => if j <= i || j > ts.len() {
                fail(Expected::Expression, i)
            } else if j >= ts.len() {
                Ok(acc.push(a))
            } else if token_at(ts, j) == Some(Token::Semicolon) {
                parse_program_from(ts, j + 1, acc.push(a))
            } else {
                fail(Expected::Semicolon, j)
            },
            Err(e) => Err(e),
        }
    }
}

/// `e` reports the failure `f`: what was expected, and the lexeme found there.
pub open spec fn reports(e: Error, ts: Seq<TokenExt>, f: Failure) -> bool {
    match f {
        Failure::Unexpected { expected: x, at } => e matches Error::UnexpectedToken {
            expected,
            found,
        } && expected == x && if 0 <= at < ts.len() {
            found matches Some(y) && y@ == ts[at].lexeme.content@
        } else {
            found is None
        },
        Failure::TooDeep => e == Error::TooDeep,
    }
}

pub open spec fn agrees(r: Result<Ast, Error>, ts: Seq<TokenExt>, end: int, s: Result<(AstModel, int), Failure>) -> bool {
    match r {
        Ok(a) => s == Ok::<(AstModel, int), Failure>((a.model(), end)),
        Err(e) => s is Err && reports(e, ts, s->Err_0),
    }
}

pub open spec fn agrees_all(r: Result<Vec<Ast>, Error>, ts: Seq<TokenExt>, end: int, s: Result<(Seq<AstModel>, int), Failure>) -> bool {
    match r {
        Ok(v) => s == Ok::<(Seq<AstModel>, int), Failure>((Ast::models(v@), end)),
        Err(e) => s is Err && reports(e, ts, s->Err_0),
    }
}

/// Tokens that the parser looks for by kind.
#[derive(Clone, Copy, PartialEq, Eq)]
enum Mark {
    ParenLeft,
    ParenRight,
    CurlyLeft,
    CurlyRight,
    Comma,
    Semicolon,
    Equal,
    Let,
    Function,
}

spec fn mark_token(m: Mark) -> Token {
    match m {
        Mark::ParenLeft => Token::ParenLeft,
        Mark::ParenRight => Token::ParenRight,
        Mark::CurlyLeft => Token::CurlyLeft,
        Mark::CurlyRight => Token::CurlyRight,
        Mark::Comma => Token::Comma,
        Mark::Semicolon => Token::Semicolon,
        Mark::Equal => Token::Equal,
        Mark::Let => Token::Let,
        Mark::Function => Token::Function,
    }
}

/// A recursive-descent parser over a sequence of tokens.
pub struct Parser {
    pub tokens: Vec<TokenExt>,
    /// The index of the next token to read.
    pub pos: usize,
}

impl Parser {
    pub open spec fn wf(&self) -> bool {
        &&& self.pos <= self.tokens@.len()
        &&& self.tokens@.len() <= usize::MAX
    }

    pub fn new(tokens: Vec<TokenExt>) -> (r: Self)
        ensures
            r.wf(),
            r.tokens@ == tokens@,
            r.pos == 0,
    {
        let _ = tokens.len();
        Parser { tokens, pos: 0 }
    }

    fn unexpected(&self, expected: Expected, at: usize) -> (e: Error)
        ensures
            reports(e, self.tokens@, Failure::Unexpected { expected, at: at as int }),
    {
        if at < self.tokens.len() {
            Error::UnexpectedToken {
                expected,
                found: Some(self.tokens[at].lexeme.content.clone()),
            }
        } else {
            Error::UnexpectedToken { expected, found: None }
        }
    }

    fn is_at(&self, i: usize, m: Mark) -> (r: bool)
        ensures
            r == (token_at(self.tokens@, i as int) == Some(mark_token(m))),
    {
        if i >= self.tokens.len() {
            return false;
        }
        match (m, &self.tokens[i].token) {
            (Mark::ParenLeft, Token::ParenLeft) => true,
            (Mark::ParenRight, Token::ParenRight) => true,
            (Mark::CurlyLeft, Token::CurlyLeft) => true,
            (Mark::CurlyRight, Token::CurlyRight) => true,
            (Mark::Comma, Token::Comma) => true,
            (Mark::Semicolon, Token::Semicolon) => true,
            (Mark::Equal, Token::Equal) => true,
            (Mark::Let, Token::Let) => true,
            (Mark::Function, Token::Function) => true,
            _ => false,
        }
    }

    fn identifier_at(&self, i: usize) -> (r: Option<String>)
        ensures
            r matches Some(x) ==> token_at(self.tokens@, i as int) matches Some(
                Token::Identifier(y),
            ) && x@ == y@,
            r is None ==> !(token_at(self.tokens@, i as int) matches Some(Token::Identifier(_))),
    {
        if i >= self.tokens.len() {
            return None;
        }
        match &self.tokens[i].token {
            Token::Identifier(x) => Some(x.clone()),
            _ => None,
        }
    }

    fn literal_at(&self, i: usize) -> (r: Option<Literal>)
        requires
            i < self.tokens@.len(),
        ensures
            r matches Some(l) ==> literal_of(self.tokens@[i as int].token) == Some(l.model()),
            r is None ==> literal_of(self.tokens@[i as int].token) is None,
    {
        match Literal::try_from_token(&self.tokens[i].token) {
            Ok(l) => Some(l),
            Err(_) => None,
        }
    }

    fn unary_at(&self, i: usize) -> (r: Option<Operator>)
        ensures
            r == unary_operator(token_at(self.tokens@, i as int)),
    {
        if i >= self.tokens.len() {
            return None;
        }
        match &self.tokens[i].token {
            Token::Bang => Some(Operator::Not),
            Token::Minus => Some(Operator::Negate),
            _ => None,
        }
    }

    fn binary_at(&self, level: usize, i: usize) -> (r: Option<Operator>)
        ensures
            r == binary_operator(level as int, token_at(self.tokens@, i as int)),
    {
        if i >= self.tokens.len() {
            return None;
        }
        match (level, &self.tokens[i].token) {
            (3, Token::Star) => Some(Operator::Multiply),
            (3, Token::Slash) => Some(Operator::Divide),
            (4, Token::Plus) => Some(Operator::Add),
            (4, Token::Minus) => Some(Operator::Subtract),
            (5, Token::Greater) => Some(Operator::Greater),
            (5, Token::GreaterEqual) => Some(Operator::GreaterEqual),
            (5, Token::Less) => Some(Operator::Less),
            (5, Token::LessEqual) => Some(Operator::LessEqual),
            (6, Token::EqualEqual) => Some(Operator::Equal),
            (6, Token::BangEqual) => Some(Operator::NotEqual),
            _ => None,
        }
    }

    /// Parses one expression starting at the current token.
    pub fn parse(&mut self) -> (r: Result<Ast, Error>)
        requires
            old(self).wf(),
        ensures
            final(self).wf(),
            final(self).tokens@ == old(self).tokens@,
            agrees(
                r,
                old(self).tokens@,
                final(self).pos as int,
                parse_level(old(self).tokens@, old(self).pos as int, 6, MAX_NESTING as nat),
            ),
    {
        self.level(EXPRESSION, MAX_NESTING)
    }

    fn level(&mut self, level: usize, depth: usize) -> (r: Result<Ast, Error>)
        requires
            old(self).wf(),
            level <= 6,
        ensures
            final(self).wf(),
            final(self).tokens@ == old(self).tokens@,
            r is Ok ==> final(self).pos > old(self).pos,
            agrees(
                r,
                old(self).tokens@,
                final(self).pos as int,
                parse_level(old(self).tokens@, old(self).pos as int, level as int, depth as nat),
            ),
        decreases old(self).tokens@.len() - old(self).pos, level + 1,
    {
        if depth == 0 {
            return Err(Error::TooDeep);
        }
        let d = depth - 1;
        if level == 0 {
            return self.primary(d);
        }
        if level == 1 {
            return match self.level(0, d) {
                Ok(a) => self.calls(a, d),
                Err(e) => Err(e),
            };
        }
        if level == 2 {
            return match self.unary_at(self.pos) {
                Some(op) => {
                    self.pos = self.pos + 1;
                    match self.level(2, d) {
                        Ok(a) => Ok(Ast::Operation(Operation::Unary { operator: op, operand: Box::new(a) })),
                        Err(e) => Err(e),
                    }
                },
                None => self.level(1, d),
            };
        }
        match self.level(level - 1, d) {
            Ok(a) => self.fold(level, a, d),
            Err(e) => Err(e),
        }
    }

    fn fold(&mut self, level: usize, lhs: Ast, depth: usize) -> (r: Result<Ast, Error>)
        requires
            old(self).wf(),
            3 <= level <= 6,
        ensures
            final(self).wf(),
            final(self).tokens@ == old(self).tokens@,
            r is Ok ==> final(self).pos >= old(self).pos,
            agrees(
                r,
                old(self).tokens@,
                final(self).pos as int,
                parse_fold(
                    old(self).tokens@,
                    old(self).pos as int,
                    level as int,
                    lhs.model(),
                    depth as nat,
                ),
            ),
        decreases old(self).tokens@.len() - old(self).pos, 0int,
    {
        let ghost ts = self.tokens@;
        let ghost lhs0 = lhs.model();
        let ghost target = parse_fold(ts, self.pos as int, level as int, lhs0, depth as nat);
        let mut acc = lhs;
        loop
            invariant
                self.wf(),
                self.tokens@ == ts,
                ts == old(self).tokens@,
                3 <= level <= 6,
                lhs0 == lhs.model(),
                self.pos >= old(self).pos,
                target == parse_fold(ts, old(self).pos as int, level as int, lhs0, depth as nat),
                target == parse_fold(ts, self.pos as int, level as int, acc.model(), depth as nat),
            decreases ts.len() - self.pos,
        {
            match self.binary_at(level, self.pos) {
                Some(op) => {
                    self.pos = self.pos + 1;
                    match self.level(level - 1, depth) {
                        Ok(b) => {
                            acc = Ast::Operation(Operation::Binary { operator: op, left: Box::new(acc), right: Box::new(b) });
                        },
                        Err(e) => {
                            return Err(e);
                        },
                    }
                },
                None => {
                    return Ok(acc);
                },
            }
        }
    }

    fn calls(&mut self, callee: Ast, depth: usize) -> (r: Result<Ast, Error>)
        requires
            old(self).wf(),
        ensures
            final(self).wf(),
            final(self).tokens@ == old(self).tokens@,
            r is Ok ==> final(self).pos >= old(self).pos,
            agrees(
                r,
                old(self).tokens@,
                final(self).pos as int,
                parse_calls(old(self).tokens@, old(self).pos as int, callee.model(), depth as nat),
            ),
        decreases old(self).tokens@.len() - old(self).pos, 0int,
    {
        if self.is_at(self.pos, Mark::ParenLeft) {
            self.pos = self.pos + 1;
            proof {
                Ast::lemma_models(Seq::<Ast>::empty());
                assert(Ast::models(Seq::<Ast>::empty()) =~= Seq::<AstModel>::empty());
            }
            match self.args(Vec::new(), depth) {
                Ok(v) => self.calls(
                    Ast::FunctionApplication { function: Box::new(callee), arguments: v },
                    depth,
                ),
                Err(e) => Err(e),
            }
        } else {
            Ok(callee)
        }
    }

    fn args(&mut self, init: Vec<Ast>, depth: usize) -> (r: Result<Vec<Ast>, Error>)
        requires
            old(self).wf(),
        ensures
            final(self).wf(),
            final(self).tokens@ == old(self).tokens@,
            r is Ok ==> final(self).pos > old(self).pos,
            agrees_all(
                r,
                old(self).tokens@,
                final(self).pos as int,
                parse_args(old(self).tokens@, old(self).pos as int, Ast::models(init@), depth as nat),
            ),
        decreases old(self).tokens@.len() - old(self).pos, 8int,
    {
        let ghost ts = self.tokens@;
        let ghost acc0 = Ast::models(init@);
        let ghost target = parse_args(ts, self.pos as int, acc0, depth as nat);
        let mut acc = init;
        loop
            invariant
                self.wf(),
                self.tokens@ == ts,
                ts == old(self).tokens@,
                acc0 == Ast::models(init@),
                self.pos >= old(self).pos,
                target == parse_args(ts, old(self).pos as int, acc0, depth as nat),
                target == parse_args(ts, self.pos as int, Ast::models(acc@), depth as nat),
            decreases ts.len() - self.pos,
        {
            if self.is_at(self.pos, Mark::ParenRight) {
                self.pos = self.pos + 1;
                return Ok(acc);
            }
            match self.level(EXPRESSION, depth) {
                Ok(a) => {
                    let j = self.pos;
                    proof {
                        Ast::lemma_models_push(acc@, a);
                    }
                    if self.is_at(j, Mark::Comma) {
                        self.pos = j + 1;
                        acc.push(a);
                    } else if self.is_at(j, Mark::ParenRight) {
                        self.pos = j + 1;
                        acc.push(a);
                        return Ok(acc);
                    } else {
                        return Err(self.unexpected(Expected::ClosingParen, j));
                    }
                },
                Err(e) => {
                    return Err(e);
                },
            }
        }
    }

    fn block(&mut self, init: Vec<Ast>, depth: usize) -> (r: Result<Vec<Ast>, Error>)
        requires
            old(self).wf(),
        ensures
            final(self).wf(),
            final(self).tokens@ == old(self).tokens@,
            r is Ok ==> final(self).pos > old(self).pos,
            agrees_all(
                r,
                old(self).tokens@,
                final(self).pos as int,
                parse_block(old(self).tokens@, old(self).pos as int, Ast::models(init@), depth as nat),
            ),
        decreases old(self).tokens@.len() - old(self).pos, 8int,
    {
        let ghost ts = self.tokens@;
        let ghost acc0 = Ast::models(init@);
        let ghost target = parse_block(ts, self.pos as int, acc0, depth as nat);
        let mut acc = init;
        loop
            invariant
                self.wf(),
                self.tokens@ == ts,
                ts == old(self).tokens@,
                acc0 == Ast::models(init@),
                self.pos >= old(self).pos,
                target == parse_block(ts, old(self).pos as int, acc0, depth as nat),
                target == parse_block(ts, self.pos as int, Ast::models(acc@), depth as nat),
            decreases ts.len() - self.pos,
        {
            match self.level(EXPRESSION, depth) {
                Ok(a) => {
                    let j = self.pos;
                    proof {
                        Ast::lemma_models_push(acc@, a);
                    }
                    if self.is_at(j, Mark::Semicolon) {
                        self.pos = j + 1;
                        acc.push(a);
                    } else if self.is_at(j, Mark::CurlyRight) {
                        self.pos = j + 1;
                        acc.push(a);
                        return Ok(acc);
                    } else {
                        return Err(self.unexpected(Expected::ClosingCurly, j));
                    }
                },
                Err(e) => {
                    return Err(e);
                },
            }
        }
    }

    fn params(&mut self, acc: Vec<String>) -> (r: Vec<String>)
        requires
            old(self).wf(),
        ensures
            final(self).wf(),
            final(self).tokens@ == old(self).tokens@,
            final(self).pos >= old(self).pos,
            parse_params(old(self).tokens@, old(self).pos as int, names_model(acc@)) == (
                names_model(r@),
                final(self).pos as int,
            ),
        decreases old(self).tokens@.len() - old(self).pos,
    {
        let mut acc = acc;
        let ghost before = acc@;
        let i = self.pos;
        match self.identifier_at(i) {
            Some(x) => {
                let ghost xv = x@;
                acc.push(x);
                proof {
                    assert(names_model(acc@) =~= names_model(before).push(xv));
                }
                if self.is_at(i + 1, Mark::Comma) {
                    self.pos = i + 2;
                    self.params(acc)
                } else {
                    self.pos = i + 1;
                    acc
                }
            },
            None => acc,
        }
    }

    fn primary(&mut self, depth: usize) -> (r: Result<Ast, Error>)
        requires
            old(self).wf(),
        ensures
            final(self).wf(),
            final(self).tokens@ == old(self).tokens@,
            r is Ok ==> final(self).pos > old(self).pos,
            agrees(
                r,
                old(self).tokens@,
                final(self).pos as int,
                parse_primary(old(self).tokens@, old(self).pos as int, depth as nat),
            ),
        decreases old(self).tokens@.len() - old(self).pos, 0int,
    {
        let i = self.pos;
        if i >= self.tokens.len() {
            return Err(self.unexpected(Expected::Expression, i));
        }
        if let Some(l) = self.literal_at(i) {
            self.pos = i + 1;
            return Ok(Ast::Literal(l));
        }
        if let Some(name) = self.identifier_at(i) {
            self.pos = i + 1;
            return Ok(Ast::Reference(name));
        }
        if self.is_at(i, Mark::ParenLeft) {
            self.pos = i + 1;
            return match self.level(EXPRESSION, depth) {
                Ok(a) => {
                    let j = self.pos;
                    if self.is_at(j, Mark::ParenRight) {
                        self.pos = j + 1;
                        let mut v: Vec<Ast> = Vec::new();
                        v.push(a);
                        proof {
                            assert(v@ =~= seq![a]);
                            Ast::lemma_models(v@);
                            assert(Ast::models(v@) =~= seq![a.model()]);
                        }
                        Ok(Ast::Grouping(v))
                    } else {
                        Err(self.unexpected(Expected::ClosingParen, j))
                    }
                },
                Err(e) => Err(e),
            };
        }
        if self.is_at(i, Mark::CurlyLeft) {
            proof {
                Ast::lemma_models(Seq::<Ast>::empty());
                assert(Ast::models(Seq::<Ast>::empty()) =~= Seq::<AstModel>::empty());
            }
            if self.is_at(i + 1, Mark::CurlyRight) {
                self.pos = i + 2;
                return Ok(Ast::Grouping(Vec::new()));
            }
            self.pos = i + 1;
            return match self.block(Vec::new(), depth) {
                Ok(items) => Ok(Ast::Grouping(items)),
                Err(e) => Err(e),
            };
        }
        if self.is_at(i, Mark::Let) {
            return match self.identifier_at(i + 1) {
                Some(name) => {
                    if self.is_at(i + 2, Mark::Equal) {
                        self.pos = i + 3;
                        match self.level(EXPRESSION, depth) {
                            Ok(a) => Ok(Ast::Declaration { name, value: Box::new(a) }),
                            Err(e) => Err(e),
                        }
                    } else {
                        Err(self.unexpected(Expected::Assignment, i + 2))
                    }
                },
                None => Err(self.unexpected(Expected::Identifier, i + 1)),
            };
        }
        if self.is_at(i, Mark::Function) {
            return match self.identifier_at(i + 1) {
                Some(name) => {
                    if self.is_at(i + 2, Mark::ParenLeft) {
                        self.pos = i + 3;
                        proof {
                            assert(names_model(Seq::<String>::empty()) =~= Seq::<Seq<char>>::empty());
                        }
                        let ps = self.params(Vec::new());
                        let j = self.pos;
                        if self.is_at(j, Mark::ParenRight) {
                            self.pos = j + 1;
                            match self.level(EXPRESSION, depth) {
                                Ok(body) => {
                                    let f = Ast::Function { arguments: ps, body: Box::new(body) };
                                    assert(f.model() == AstModel::Function(
                                        names_model(ps@),
                                        Box::new(body.model()),
                                    ));
                                    Ok(Ast::Declaration { name, value: Box::new(f) })
                                },
                                Err(e) => Err(e),
                            }
                        } else {
                            Err(self.unexpected(Expected::ClosingParen, j))
                        }
                    } else {
                        Err(self.unexpected(Expected::OpeningParen, i + 2))
                    }
                },
                None => Err(self.unexpected(Expected::FunctionName, i + 1)),
            };
        }
        Err(self.unexpected(Expected::Expression, i))
    }
}

impl Parser {
    /// Parses a whole program: expressions separated by `;` up to the end of
    /// the tokens.
    pub fn parse_program(&mut self) -> (r: Result<Vec<Ast>, Error>)
        requires
            old(self).wf(),
        ensures
            final(self).tokens@ == old(self).tokens@,
            ({
                let s = parse_program_from(old(self).tokens@, old(self).pos as int, Seq::empty());
                match r {
                    Ok(v) => s == Ok::<Seq<AstModel>, Failure>(Ast::models(v@)),
                    Err(e) => s is Err && reports(e, old(self).tokens@, s->Err_0),
                }
            }),
    {
        let ghost ts = self.tokens@;
        let ghost start = self.pos;
        let mut acc: Vec<Ast> = Vec::new();
        proof {
            assert(Ast::models(acc@) =~= Seq::<AstModel>::empty());
        }
        loop
            invariant
                self.wf(),
                self.tokens@ == ts,
                ts == old(self).tokens@,
                start == old(self).pos,
                parse_program_from(ts, start as int, Seq::empty()) == parse_program_from(
                    ts,
                    self.pos as int,
                    Ast::models(acc@),
                ),
            decreases ts.len() - self.pos,
        {
            if self.pos >= self.tokens.len() {
                return Ok(acc);
            }
            match self.level(EXPRESSION, MAX_NESTING) {
                Ok(a) => {
                    let j = self.pos;
                    proof {
                        Ast::lemma_models_push(acc@, a);
                    }
                    if j >= self.tokens.len() {
                        acc.push(a);
                        return Ok(acc);
                    } else if self.is_at(j, Mark::Semicolon) {
                        self.pos = j + 1;
                        acc.push(a);
                    } else {
                        return Err(self.unexpected(Expected::Semicolon, j));
                    }
                },
                Err(e) => {
                    return Err(e);
                },
            }
        }
    }
}

/// Parses one expression from the start of `tokens`.
pub fn parse(tokens: Vec<TokenExt>) -> (r: Result<Ast, Error>)
    ensures
        ({
            let s = parse_level(tokens@, 0, EXPRESSION as int, MAX_NESTING as nat);
            match r {
                Ok(a) => s is Ok && s->Ok_0.0 == a.model(),
                Err(e) => s is Err && reports(e, tokens@, s->Err_0),
            }
        }),
{
    let mut p = Parser::new(tokens);
    p.parse()
}

impl Literal {
    /// The literal that a literal token carries; any other token is an
    /// internal error.
    pub fn try_from_token(token: &Token) -> (r: Result<Literal, Error>)
        ensures
            match r {
                Ok(l) => literal_of(*token) == Some(l.model()),
                Err(e) => literal_of(*token) is None && e == Error::Internal,
            },
    {
        match token {
            Token::Nil => Ok(Literal::Nil),
            Token::Bool(b) => Ok(Literal::Bool(*b)),
            Token::Integer(n) => Ok(Literal::Integer(*n)),
            Token::Float(x) => Ok(Literal::Float(x.clone())),
            Token::Str(x) => Ok(Literal::Str(x.clone())),
            _ => Err(Error::Internal),
        }
    }
}

impl Operator {
    /// The operator that a token stands for outside any context; `-` is
    /// ambiguous and stands for none.
    pub open spec fn of_token(t: Token) -> Option<Operator> {
        match t {
            Token::Bang => Some(Operator::Not),
            Token::EqualEqual => Some(Operator::Equal),
            Token::BangEqual => Some(Operator::NotEqual),
            Token::Greater => Some(Operator::Greater),
            Token::GreaterEqual => Some(Operator::GreaterEqual),
            Token::Less => Some(Operator::Less),
            Token::LessEqual => Some(Operator::LessEqual),
            Token::Plus => Some(Operator::Add),
            Token::Star => Some(Operator::Multiply),
            Token::Slash => Some(Operator::Divide),
            _ => None,
        }
    }

    pub fn try_from_token(token: &Token) -> (r: Result<Operator, Error>)
        ensures
            r == match Self::of_token(*token) {
                Some(op) => Ok(op),
                None => Err(Error::Internal),
            },
    {
        match token {
            Token::Bang => Ok(Operator::Not),
            Token::EqualEqual => Ok(Operator::Equal),
            Token::BangEqual => Ok(Operator::NotEqual),
            Token::Greater => Ok(Operator::Greater),
            Token::GreaterEqual => Ok(Operator::GreaterEqual),
            Token::Less => Ok(Operator::Less),
            Token::LessEqual => Ok(Operator::LessEqual),
            Token::Plus => Ok(Operator::Add),
            Token::Star => Ok(Operator::Multiply),
            Token::Slash => Ok(Operator::Divide),
            _ => Err(Error::Internal),
        }
    }

    /// `-` read as negation; any other token as [`Operator::try_from_token`] reads it.
    pub fn try_from_token_unary(token: &Token) -> (r: Result<Operator, Error>)
        ensures
            *token == Token::Minus ==> r == Ok::<Operator, Error>(Operator::Negate),
            *token != Token::Minus ==> r == match Self::of_token(*token) {
                Some(op) => Ok(op),
                None => Err(Error::Internal),
            },
    {
        match token {
            Token::Minus => Ok(Operator::Negate),
            _ => Self::try_from_token(token),
        }
    }

    /// `-` read as subtraction; any other token as [`Operator::try_from_token`] reads it.
    pub fn try_from_token_binary(token: &Token) -> (r: Result<Operator, Error>)
        ensures
            *token == Token::Minus ==> r == Ok::<Operator, Error>(Operator::Subtract),
            *token != Token::Minus ==> r == match Self::of_token(*token) {
                Some(op) => Ok(op),
                None => Err(Error::Internal),
            },
    {
        match token {
            Token::Minus => Ok(Operator::Subtract),
            _ => Self::try_from_token(token),
        }
    }
}

} // verus!
