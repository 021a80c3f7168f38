//! The parser: from tokens to statements.
//!
//! A program is a list of statements, each of which ends with the line. An
//! expression is parsed by levels of precedence, from the store at the
//! lowest to the leaves at the highest; operators of one level group to the
//! right. Two expressions side by side multiply.

use vstd::prelude::*;
use crate::context::Variable;
use crate::executor::{Program, ProgramView};
use crate::expr::{BinaryOp, Expr, Literal, Negate, Not, Operator, StoreNode, VarRef};
use crate::laws::lemma_growth_keeps_blocks_matched;
use crate::lexer::Token;
use crate::number::{Number, ONE_BITS};
use crate::statement::{Command, For, Statement};
use crate::value::Value;

verus! {

/// Why the tokens are no program.
#[derive(Debug, PartialEq)]
pub enum ParserError {
    /// This token had to come next and did not.
    MissingToken(Token),
    /// A statement begins with this token, which begins none that is known.
    NotYetImplemented(Token),
    /// An expression cannot begin with this token.
    UnexpectedToken(Token),
    /// A store, a `For(`, a `DS<(` or an `IS>(` without the variable it
    /// needs.
    SyntaxError,
}

/// An expression with the position behind it, or the error.
pub type Parsed = Result<(Expr, int), ParserError>;

/// A statement with the position behind it, or the error.
pub type ParsedStatement = Result<(Statement, int), ParserError>;

/// The token at a position; behind the last token, the end of input goes on
/// for ever.
pub open spec fn token_at(tokens: Seq<Token>, i: int) -> Token {
    if 0 <= i < tokens.len() {
        tokens[i]
    } else {
        Token::EndOfInput
    }
}

/// The position behind the token `kind` if it stands at `i`, else `i`.
pub open spec fn past(tokens: Seq<Token>, i: int, kind: Token) -> int {
    if token_at(tokens, i) == kind {
        i + 1
    } else {
        i
    }
}

/// The node for an operator between two operands.
pub open spec fn binary(op: Operator, lhs: Expr, rhs: Expr) -> Expr {
    Expr::Binary(BinaryOp { lhs: Box::new(lhs), rhs: Box::new(rhs), op })
}

/// The constant `1.0`, the step of a `For` that names none.
pub open spec fn unit() -> Expr {
    Expr::Value(Value::NumValue(Number { bits: ONE_BITS }))
}

/// The operator that a token stands for on the level of `or` and `xor`.
pub open spec fn disjunctive(token: Token) -> Option<Operator> {
    match token {
        Token::Or => Some(Operator::Or),
        Token::Xor => Some(Operator::Xor),
        _ => None,
    }
}

/// The operator that a token stands for on the level of the comparisons.
pub open spec fn relational(token: Token) -> Option<Operator> {
    match token {
        Token::Equal => Some(Operator::Equal),
        Token::NotEqual => Some(Operator::NotEqual),
        Token::Greater => Some(Operator::Greater),
        Token::GreaterEqual => Some(Operator::GreaterEqual),
        Token::Less => Some(Operator::Less),
        Token::LessEqual => Some(Operator::LessEqual),
        _ => None,
    }
}

/// The operator that a token stands for on the level of `+` and `-`.
pub open spec fn additive(token: Token) -> Option<Operator> {
    match token {
        Token::Plus => Some(Operator::Add),
        Token::Minus => Some(Operator::Minus),
        _ => None,
    }
}

/// The operator that a token stands for on the level of `*` and `/`.
pub open spec fn multiplicative(token: Token) -> Option<Operator> {
    match token {
        Token::Mult => Some(Operator::Mult),
        Token::Divide => Some(Operator::Divide),
        _ => None,
    }
}

/// A leaf: a decimal literal, a variable, or a scientific suffix on its
/// own, which is a power of ten.
pub open spec fn leaf(tokens: Seq<Token>, i: int) -> Parsed {
    match token_at(tokens, i) {
        Token::Number(text) => Ok((Expr::Literal(Literal::Decimal(text)), i + 1)),
        Token::RealVar(name) => Ok((Expr::Var(VarRef { var: Variable::RealVar(name) }), i + 1)),
        Token::Scientific(exponent) => Ok((Expr::Literal(Literal::PowerOfTen(exponent)), i + 1)),
        token => Err(ParserError::UnexpectedToken(token)),
    }
}

/// A grouping: an expression in parentheses, of which the closing one may
/// be left out.
pub open spec fn group(tokens: Seq<Token>, i: int) -> Parsed
    decreases tokens.len() - i, 1int,
{
    if token_at(tokens, i) == Token::Lparen {
        match disjunction(tokens, i + 1) {
            Ok((inner, next)) => Ok((inner, past(tokens, next, Token::Rparen))),
            Err(e) => Err(e),
        }
    } else {
        leaf(tokens, i)
    }
}

/// A function that stands before its argument: `not(`, whose closing
/// parenthesis may be left out.
pub open spec fn prefix(tokens: Seq<Token>, i: int) -> Parsed
    decreases tokens.len() - i, 2int,
{
    if token_at(tokens, i) == Token::Not {
        match disjunction(tokens, i + 1) {
            Ok((inner, next)) => Ok(
                (Expr::Not(Not { val: Box::new(inner) }), past(tokens, next, Token::Rparen)),
            ),
            Err(e) => Err(e),
        }
    } else {
        group(tokens, i)
    }
}

/// A power: `base ^ exponent`, with a single exponent.
///
/// Here and on the levels below, the position behind the left operand is
/// tested before the right one is parsed from it, for the sake of the
/// definition; the test never fails (see [`lemma_product_advances`] and its
/// like).
pub open spec fn power(tokens: Seq<Token>, i: int) -> Parsed
    decreases tokens.len() - i, 4int,
{
    match prefix(tokens, i) {
        Ok((lhs, next)) => if token_at(tokens, next) == Token::Power {
            if i <= next {
                match prefix(tokens, next + 1) {
                    Ok((rhs, end)) => Ok((binary(Operator::Power, lhs, rhs), end)),
                    Err(e) => Err(e),
                }
            } else {
                Err(ParserError::SyntaxError)
            }
        } else {
            Ok((lhs, next))
        },
        Err(e) => Err(e),
    }
}

/// A negation: `--` before a power.
pub open spec fn negation(tokens: Seq<Token>, i: int) -> Parsed
    decreases tokens.len() - i, 5int,
{
    if token_at(tokens, i) == Token::Negate {
        match power(tokens, i + 1) {
            Ok((inner, next)) => Ok((Expr::Negate(Negate { val: Box::new(inner) }), next)),
            Err(e) => Err(e),
        }
    } else {
        power(tokens, i)
    }
}

/// A product: operands joined by `*` or `/`, or standing side by side,
/// which multiplies them. Whether another operand stands beside the first
/// is found out by trying to parse one; if that fails, the product ends
/// with the first.
pub open spec fn product(tokens: Seq<Token>, i: int) -> Parsed
    decreases tokens.len() - i, 6int,
{
    match negation(tokens, i) {
        Ok((lhs, next)) => match multiplicative(token_at(tokens, next)) {
            Some(op) => if i <= next {
                match product(tokens, next + 1) {
                    Ok((rhs, end)) => Ok((binary(op, lhs, rhs), end)),
                    Err(e) => Err(e),
                }
            } else {
                Err(ParserError::SyntaxError)
            },
            None => if i < next <= tokens.len() {
                match product(tokens, next) {
                    Ok((rhs, end)) => Ok((binary(Operator::Mult, lhs, rhs), end)),
                    Err(_) => Ok((lhs, next)),
                }
            } else {
                Ok((lhs, next))
            },
        },
        Err(e) => Err(e),
    }
}

/// A sum: products joined by `+` or `-`.
pub open spec fn sum(tokens: Seq<Token>, i: int) -> Parsed
    decreases tokens.len() - i, 7int,
{
    match product(tokens, i) {
        Ok((lhs, next)) => match additive(token_at(tokens, next)) {
            Some(op) => if i <= next {
                match sum(tokens, next + 1) {
                    Ok((rhs, end)) => Ok((binary(op, lhs, rhs), end)),
                    Err(e) => Err(e),
                }
            } else {
                Err(ParserError::SyntaxError)
            },
            None => Ok((lhs, next)),
        },
        Err(e) => Err(e),
    }
}

/// A comparison: sums joined by `=`, `!=`, `>`, `>=`, `<` or `<=`.
pub open spec fn relation(tokens: Seq<Token>, i: int) -> Parsed
    decreases tokens.len() - i, 8int,
{
    match sum(tokens, i) {
        Ok((lhs, next)) => match relational(token_at(tokens, next)) {
            Some(op) => if i <= next {
                match relation(tokens, next + 1) {
                    Ok((rhs, end)) => Ok((binary(op, lhs, rhs), end)),
                    Err(e) => Err(e),
                }
            } else {
                Err(ParserError::SyntaxError)
            },
            None => Ok((lhs, next)),
        },
        Err(e) => Err(e),
    }
}

/// A conjunction: comparisons joined by `and`.
pub open spec fn conjunction(tokens: Seq<Token>, i: int) -> Parsed
    decreases tokens.len() - i, 9int,
{
    match relation(tokens, i) {
        Ok((lhs, next)) => if token_at(tokens, next) == Token::And {
            if i <= next {
                match conjunction(tokens, next + 1) {
                    Ok((rhs, end)) => Ok((binary(Operator::And, lhs, rhs), end)),
                    Err(e) => Err(e),
                }
            } else {
                Err(ParserError::SyntaxError)
            }
        } else {
            Ok((lhs, next))
        },
        Err(e) => Err(e),
    }
}

/// A disjunction: conjunctions joined by `or` or `xor`.
pub open spec fn disjunction(tokens: Seq<Token>, i: int) -> Parsed
    decreases tokens.len() - i, 10int,
{
    match conjunction(tokens, i) {
        Ok((lhs, next)) => match disjunctive(token_at(tokens, next)) {
            Some(op) => if i <= next {
                match disjunction(tokens, next + 1) {
                    Ok((rhs, end)) => Ok((binary(op, lhs, rhs), end)),
                    Err(e) => Err(e),
                }
            } else {
                Err(ParserError::SyntaxError)
            },
            None => Ok((lhs, next)),
        },
        Err(e) => Err(e),
    }
}

/// A store: a disjunction, which `->` and a real variable may follow.
pub open spec fn store(tokens: Seq<Token>, i: int) -> Parsed {
    match disjunction(tokens, i) {
        Ok((lhs, next)) => if token_at(tokens, next) == Token::Store {
            match token_at(tokens, next + 1) {
                Token::RealVar(name) => Ok(
                    (
                        Expr::Store(
                            StoreNode { val: Box::new(lhs), var: Variable::RealVar(name) },
                        ),
                        next + 2,
                    ),
                ),
                _ => Err(ParserError::SyntaxError),
            }
        } else {
            Ok((lhs, next))
        },
        Err(e) => Err(e),
    }
}

/// What stands at `next` has to be the end of the line.
pub open spec fn line(statement: Statement, tokens: Seq<Token>, next: int) -> ParsedStatement {
    if token_at(tokens, next) == Token::EndOfLine {
        Ok((statement, next + 1))
    } else {
        Err(ParserError::MissingToken(Token::EndOfLine))
    }
}

/// An expression statement: a store, and the end of the line.
pub open spec fn expression(tokens: Seq<Token>, i: int) -> ParsedStatement {
    match store(tokens, i) {
        Ok((e, next)) => line(Statement::Expression(e), tokens, next),
        Err(e) => Err(e),
    }
}

/// A command that is a keyword, a condition and the end of the line.
pub open spec fn conditional(tokens: Seq<Token>, i: int) -> ParsedStatement {
    match disjunction(tokens, i + 1) {
        Ok((condition, next)) => line(
            Statement::Command(
                match token_at(tokens, i) {
                    Token::If => Command::If(condition),
                    Token::While => Command::While(condition),
                    Token::Repeat => Command::Repeat(condition),
                    _ => Command::Disp(condition),
                },
            ),
            tokens,
            next,
        ),
        Err(e) => Err(e),
    }
}

/// The header of a `For` loop behind `For(`: the variable, the start and
/// the limit, possibly the step, which is `1.0` if it is left out, and
/// possibly a closing parenthesis.
pub open spec fn for_header(tokens: Seq<Token>, i: int) -> ParsedStatement {
    match token_at(tokens, i) {
        Token::RealVar(name) => if token_at(tokens, i + 1) != Token::Comma {
            Err(ParserError::MissingToken(Token::Comma))
        } else {
            match disjunction(tokens, i + 2) {
                Ok((start, comma)) => if token_at(tokens, comma) != Token::Comma {
                    Err(ParserError::MissingToken(Token::Comma))
                } else {
                    match disjunction(tokens, comma + 1) {
                        Ok((stop, next)) => if token_at(tokens, next) == Token::Comma {
                            match disjunction(tokens, next + 1) {
                                Ok((inc, end)) => Ok(
                                    (
                                        Statement::Command(
                                            Command::For(
                                                For {
                                                    var: Variable::RealVar(name),
                                                    start,
                                                    stop,
                                                    inc,
                                                },
                                            ),
                                        ),
                                        past(tokens, end, Token::Rparen),
                                    ),
                                ),
                                Err(e) => Err(e),
                            }
                        } else {
                            Ok(
                                (
                                    Statement::Command(
                                        Command::For(
                                            For {
                                                var: Variable::RealVar(name),
                                                start,
                                                stop,
                                                inc: unit(),
                                            },
                                        ),
                                    ),
                                    past(tokens, next, Token::Rparen),
                                ),
                            )
                        },
                        Err(e) => Err(e),
                    }
                },
                Err(e) => Err(e),
            }
        },
        _ => Err(ParserError::SyntaxError),
    }
}

/// What follows `DS<(` or `IS>(`: the variable, the bound, and possibly a
/// closing parenthesis.
pub open spec fn skip_header(tokens: Seq<Token>, i: int, decrement: bool) -> ParsedStatement {
    match token_at(tokens, i) {
        Token::RealVar(name) => if token_at(tokens, i + 1) != Token::Comma {
            Err(ParserError::MissingToken(Token::Comma))
        } else {
            match disjunction(tokens, i + 2) {
                Ok((bound, next)) => Ok(
                    (
                        Statement::Command(
                            if decrement {
                                Command::DecrementSkip(Variable::RealVar(name), bound)
                            } else {
                                Command::IncrementSkip(Variable::RealVar(name), bound)
                            },
                        ),
                        past(tokens, next, Token::Rparen),
                    ),
                ),
                Err(e) => Err(e),
            }
        },
        _ => Err(ParserError::SyntaxError),
    }
}

/// A command, which begins with the keyword at `i`.
pub open spec fn command(tokens: Seq<Token>, i: int) -> ParsedStatement {
    match token_at(tokens, i) {
        Token::If => conditional(tokens, i),
        Token::While => conditional(tokens, i),
        Token::Repeat => conditional(tokens, i),
        Token::Disp => conditional(tokens, i),
        Token::Then => line(Statement::Command(Command::Then), tokens, i + 1),
        Token::Else => line(Statement::Command(Command::Else), tokens, i + 1),
        Token::End => line(Statement::Command(Command::End), tokens, i + 1),
        Token::Lbl(label) => line(Statement::Command(Command::Lbl(label)), tokens, i + 1),
        Token::Goto(label) => line(Statement::Command(Command::Goto(label)), tokens, i + 1),
        Token::For => for_header(tokens, i + 1),
        Token::DecrementSkip => skip_header(tokens, i + 1, true),
        Token::IncrementSkip => skip_header(tokens, i + 1, false),
        token => Err(ParserError::NotYetImplemented(token)),
    }
}

/// Whether a command begins with the token.
pub open spec fn begins_command(token: Token) -> bool {
    match token {
        Token::If => true,
        Token::Else => true,
        Token::For => true,
        Token::While => true,
        Token::Repeat => true,
        Token::End => true,
        Token::Then => true,
        Token::Disp => true,
        Token::Lbl(_) => true,
        Token::Goto(_) => true,
        Token::DecrementSkip => true,
        Token::IncrementSkip => true,
        _ => false,
    }
}

/// The statement that begins at `i`.
pub open spec fn statement(tokens: Seq<Token>, i: int) -> ParsedStatement {
    if begins_command(token_at(tokens, i)) {
        command(tokens, i)
    } else {
        expression(tokens, i)
    }
}

/// The statements from `i` up to the end of input, behind those in `sofar`,
/// and the error, if there is one, at which they end. Ends of lines between
/// statements are passed over. That a statement ends behind where it began
/// is tested for the sake of the definition; the test never fails (see
/// [`lemma_statement_advances`]).
pub open spec fn statements_from(tokens: Seq<Token>, i: int, sofar: Seq<Statement>) -> (
    Seq<Statement>,
    Result<(), ParserError>,
)
    decreases tokens.len() - i,
{
    if token_at(tokens, i) == Token::EndOfInput {
        (sofar, Ok(()))
    } else if token_at(tokens, i) == Token::EndOfLine {
        statements_from(tokens, i + 1, sofar)
    } else {
        match statement(tokens, i) {
            Ok((parsed, next)) => if i < next <= tokens.len() {
                statements_from(tokens, next, sofar.push(parsed))
            } else {
                (sofar, Ok(()))
            },
            Err(e) => (sofar, Err(e)),
        }
    }
}

/// The statements that the tokens spell, and the error, if there is one, at
/// which they end.
pub open spec fn program(tokens: Seq<Token>) -> (Seq<Statement>, Result<(), ParserError>) {
    statements_from(tokens, 0, Seq::empty())
}

/// A grouping that parses takes at least one token, and none behind the
/// last; one that does not parse has met a token with which no expression
/// begins.
pub proof fn lemma_group_advances(tokens: Seq<Token>, i: int)
    requires
        0 <= i,
    ensures
        group(tokens, i) matches Ok((_, next)) ==> i < next <= tokens.len(),
        group(tokens, i) matches Err(e) ==> e is UnexpectedToken,
    decreases tokens.len() - i, 1int,
{
    if token_at(tokens, i) == Token::Lparen {
        lemma_disjunction_advances(tokens, i + 1);
    }
}

/// The same for a prefix function.
pub proof fn lemma_prefix_advances(tokens: Seq<Token>, i: int)
    requires
        0 <= i,
    ensures
        prefix(tokens, i) matches Ok((_, next)) ==> i < next <= tokens.len(),
        prefix(tokens, i) matches Err(e) ==> e is UnexpectedToken,
    decreases tokens.len() - i, 2int,
{
    if token_at(tokens, i) == Token::Not {
        lemma_disjunction_advances(tokens, i + 1);
    } else {
        lemma_group_advances(tokens, i);
    }
}

/// The same for a power.
pub proof fn lemma_power_advances(tokens: Seq<Token>, i: int)
    requires
        0 <= i,
    ensures
        power(tokens, i) matches Ok((_, next)) ==> i < next <= tokens.len(),
        power(tokens, i) matches Err(e) ==> e is UnexpectedToken,
    decreases tokens.len() - i, 4int,
{
    lemma_prefix_advances(tokens, i);
    if let Ok((_, next)) = prefix(tokens, i) {
        if token_at(tokens, next) == Token::Power {
            lemma_prefix_advances(tokens, next + 1);
        }
    }
}

/// The same for a negation.
pub proof fn lemma_negation_advances(tokens: Seq<Token>, i: int)
    requires
        0 <= i,
    ensures
        negation(tokens, i) matches Ok((_, next)) ==> i < next <= tokens.len(),
        negation(tokens, i) matches Err(e) ==> e is UnexpectedToken,
    decreases tokens.len() - i, 5int,
{
    if token_at(tokens, i) == Token::Negate {
        lemma_power_advances(tokens, i + 1);
    } else {
        lemma_power_advances(tokens, i);
    }
}

/// The same for a product. So the tests that [`product`] and the levels around it make before they go on are never failed.
pub proof fn lemma_product_advances(tokens: Seq<Token>, i: int)
    requires
        0 <= i,
    ensures
        product(tokens, i) matches Ok((_, next)) ==> i < next <= tokens.len(),
        product(tokens, i) matches Err(e) ==> e is UnexpectedToken,
    decreases tokens.len() - i, 6int,
{
    lemma_negation_advances(tokens, i);
    if let Ok((_, next)) = negation(tokens, i) {
        if multiplicative(token_at(tokens, next)) is Some {
            lemma_product_advances(tokens, next + 1);
        } else {
            lemma_product_advances(tokens, next);
        }
    }
}

/// The same for a sum.
pub proof fn lemma_sum_advances(tokens: Seq<Token>, i: int)
    requires
        0 <= i,
    ensures
        sum(tokens, i) matches Ok((_, next)) ==> i < next <= tokens.len(),
        sum(tokens, i) matches Err(e) ==> e is UnexpectedToken,
    decreases tokens.len() - i, 7int,
{
    lemma_product_advances(tokens, i);
    if let Ok((_, next)) = product(tokens, i) {
        if additive(token_at(tokens, next)) is Some {
            lemma_sum_advances(tokens, next + 1);
        }
    }
}

/// The same for a comparison.
pub proof fn lemma_relation_advances(tokens: Seq<Token>, i: int)
    requires
        0 <= i,
    ensures
        relation(tokens, i) matches Ok((_, next)) ==> i < next <= tokens.len(),
        relation(tokens, i) matches Err(e) ==> e is UnexpectedToken,
    decreases tokens.len() - i, 8int,
{
    lemma_sum_advances(tokens, i);
    if let Ok((_, next)) = sum(tokens, i) {
        if relational(token_at(tokens, next)) is Some {
            lemma_relation_advances(tokens, next + 1);
        }
    }
}

/// The same for a conjunction.
pub proof fn lemma_conjunction_advances(tokens: Seq<Token>, i: int)
    requires
        0 <= i,
    ensures
        conjunction(tokens, i) matches Ok((_, next)) ==> i < next <= tokens.len(),
        conjunction(tokens, i) matches Err(e) ==> e is UnexpectedToken,
    decreases tokens.len() - i, 9int,
{
    lemma_relation_advances(tokens, i);
    if let Ok((_, next)) = relation(tokens, i) {
        if token_at(tokens, next) == Token::And {
            lemma_conjunction_advances(tokens, next + 1);
        }
    }
}

/// The same for a disjunction.
pub proof fn lemma_disjunction_advances(tokens: Seq<Token>, i: int)
    requires
        0 <= i,
    ensures
        disjunction(tokens, i) matches Ok((_, next)) ==> i < next <= tokens.len(),
        disjunction(tokens, i) matches Err(e) ==> e is UnexpectedToken,
    decreases tokens.len() - i, 10int,
{
    lemma_conjunction_advances(tokens, i);
    if let Ok((_, next)) = conjunction(tokens, i) {
        if disjunctive(token_at(tokens, next)) is Some {
            lemma_disjunction_advances(tokens, next + 1);
        }
    }
}

/// A statement that parses takes at least one token, and none behind the
/// last: the statements of a program are found one behind the other up to
/// the end of input. And no statement fails for want of a command: every
/// token that begins a command begins one that is known.
pub proof fn lemma_statement_advances(tokens: Seq<Token>, i: int)
    requires
        0 <= i,
    ensures
        statement(tokens, i) matches Ok((_, next)) ==> i < next <= tokens.len(),
        statement(tokens, i) matches Err(e) ==> !(e is NotYetImplemented),
{
    lemma_disjunction_advances(tokens, i);
    lemma_disjunction_advances(tokens, i + 1);
    lemma_disjunction_advances(tokens, i + 3);
    match token_at(tokens, i) {
        Token::For => {
            if let Ok((_, comma)) = disjunction(tokens, i + 3) {
                lemma_disjunction_advances(tokens, comma + 1);
                if let Ok((_, next)) = disjunction(tokens, comma + 1) {
                    lemma_disjunction_advances(tokens, next + 1);
                }
            }
        },
        _ => {},
    }
}

/// The state of a parse: the tokens, and the position in them.
struct Parser<'a> {
    tokens: &'a Vec<Token>,
    i: usize,
}

impl<'a> Parser<'a> {
    spec fn wf(self) -> bool {
        self.i <= self.tokens.len()
    }

    /// Whether a function that was to parse `expected` did so: it returned
    /// the expression and stands behind it, or it returned the error.
    spec fn yields(self, r: Result<Expr, ParserError>, after: Parser<'a>, expected: Parsed) -> bool {
        &&& after.tokens == self.tokens
        &&& match r {
            Ok(e) => expected == Ok::<(Expr, int), ParserError>((e, after.i as int)) && self.i
                < after.i,
            Err(e) => expected == Err::<(Expr, int), ParserError>(e),
        }
    }

    /// The same for a statement.
    spec fn gives(
        self,
        r: Result<Statement, ParserError>,
        after: Parser<'a>,
        expected: ParsedStatement,
    ) -> bool {
        &&& after.tokens == self.tokens
        &&& match r {
            Ok(s) => expected == Ok::<(Statement, int), ParserError>((s, after.i as int))
                && self.i < after.i,
            Err(e) => expected == Err::<(Statement, int), ParserError>(e),
        }
    }

    /// The token at the position.
    fn token(&self) -> (token: Token)
        ensures
            token == token_at(self.tokens@, self.i as int),
    {
        if self.i < self.tokens.len() {
            self.tokens[self.i].duplicate()
        } else {
            Token::EndOfInput
        }
    }

    fn advance(&mut self)
        requires
            old(self).i < old(self).tokens.len(),
        ensures
            final(self).tokens == old(self).tokens,
            final(self).i == old(self).i + 1,
    {
        self.i += 1;
    }

    /// Steps over the token at the position if it is `token`.
    fn match_if_is(&mut self, token: &Token) -> (matched: bool)
        requires
            old(self).wf(),
            token.plain(),
            *token != Token::EndOfInput,
        ensures
            final(self).wf(),
            final(self).tokens == old(self).tokens,
            matched == (token_at(old(self).tokens@, old(self).i as int) == *token),
            final(self).i == past(old(self).tokens@, old(self).i as int, *token),
    {
        if self.i < self.tokens.len() && self.tokens[self.i].is(token) {
            self.advance();
            return true;
        }
        false
    }

    /// Steps over the token at the position, which has to be `token`.
    fn match_token(&mut self, token: Token) -> (r: Result<(), ParserError>)
        requires
            old(self).wf(),
            token.plain(),
            token != Token::EndOfInput,
        ensures
            final(self).wf(),
            final(self).tokens == old(self).tokens,
            match r {
                Ok(()) => token_at(old(self).tokens@, old(self).i as int) == token && final(self).i
                    == old(self).i + 1,
                Err(e) => token_at(old(self).tokens@, old(self).i as int) != token && e
                    == ParserError::MissingToken(token) && final(self).i == old(self).i,
            },
    {
        if !self.match_if_is(&token) {
            return Err(ParserError::MissingToken(token));
        }
        Ok(())
    }

    /// Whether there is a token left before the end of input.
    fn more_tokens(&self) -> (more: bool)
        ensures
            more == (token_at(self.tokens@, self.i as int) != Token::EndOfInput),
    {
        self.i < self.tokens.len() && !self.tokens[self.i].is(&Token::EndOfInput)
    }

    /// Storing to a variable.
    fn pl_12(&mut self) -> (r: Result<Expr, ParserError>)
        requires
            old(self).wf(),
        ensures
            final(self).wf(),
            old(self).yields(r, *final(self), store(old(self).tokens@, old(self).i as int)),
    {
        let lhs = self.pl_11()?;
        if self.match_if_is(&Token::Store) {
            match self.token() {
                Token::RealVar(name) => {
                    self.advance();
                    Ok(Expr::Store(StoreNode { val: Box::new(lhs), var: Variable::RealVar(name) }))
                },
                _ => Err(ParserError::SyntaxError),
            }
        } else {
            Ok(lhs)
        }
    }

    fn pl_11(&mut self) -> (r: Result<Expr, ParserError>)
        requires
            old(self).wf(),
        ensures
            final(self).wf(),
            old(self).yields(r, *final(self), disjunction(old(self).tokens@, old(self).i as int)),
    {
        self.pl_10()
    }

    /// Logical or, xor.
    fn pl_10(&mut self) -> (r: Result<Expr, ParserError>)
        requires
            old(self).wf(),
        ensures
            final(self).wf(),
            old(self).yields(r, *final(self), disjunction(old(self).tokens@, old(self).i as int)),
        decreases old(self).tokens.len() - old(self).i, 10int,
    {
        let lhs = self.pl_9()?;

        if self.match_if_is(&Token::Or) {
            let rhs = self.pl_10()?;
            Ok(Expr::Binary(BinaryOp::or(Box::new(lhs), Box::new(rhs))))
        } else if self.match_if_is(&Token::Xor) {
            let rhs = self.pl_10()?;
            Ok(Expr::Binary(BinaryOp::xor(Box::new(lhs), Box::new(rhs))))
        } else {
            Ok(lhs)
        }
    }

    /// Logical and.
    fn pl_9(&mut self) -> (r: Result<Expr, ParserError>)
        requires
            old(self).wf(),
        ensures
            final(self).wf(),
            old(self).yields(r, *final(self), conjunction(old(self).tokens@, old(self).i as int)),
        decreases old(self).tokens.len() - old(self).i, 9int,
    {
        let lhs = self.pl_8()?;

        if self.match_if_is(&Token::And) {
            let rhs = self.pl_9()?;
            Ok(Expr::Binary(BinaryOp::and(Box::new(lhs), Box::new(rhs))))
        } else {
            Ok(lhs)
        }
    }

    /// Relational operators.
    fn pl_8(&mut self) -> (r: Result<Expr, ParserError>)
        requires
            old(self).wf(),
        ensures
            final(self).wf(),
            old(self).yields(r, *final(self), relation(old(self).tokens@, old(self).i as int)),
        decreases old(self).tokens.len() - old(self).i, 8int,
    {
        let lhs = self.pl_7()?;

        if self.match_if_is(&Token::Equal) {
            let rhs = self.pl_8()?;
            Ok(Expr::Binary(BinaryOp::equal(Box::new(lhs), Box::new(rhs))))
        } else if self.match_if_is(&Token::NotEqual) {
            let rhs = self.pl_8()?;
            Ok(Expr::Binary(BinaryOp::not_equal(Box::new(lhs), Box::new(rhs))))
        } else if self.match_if_is(&Token::Greater) {
            let rhs = self.pl_8()?;
            Ok(Expr::Binary(BinaryOp::greater(Box::new(lhs), Box::new(rhs))))
        } else if self.match_if_is(&Token::GreaterEqual) {
            let rhs = self.pl_8()?;
            Ok(Expr::Binary(BinaryOp::greater_equal(Box::new(lhs), Box::new(rhs))))
        } else if self.match_if_is(&Token::Less) {
            let rhs = self.pl_8()?;
            Ok(Expr::Binary(BinaryOp::less(Box::new(lhs), Box::new(rhs))))
        } else if self.match_if_is(&Token::LessEqual) {
            let rhs = self.pl_8()?;
            Ok(Expr::Binary(BinaryOp::less_equal(Box::new(lhs), Box::new(rhs))))
        } else {
            Ok(lhs)
        }
    }

    /// Addition and subtraction.
    fn pl_7(&mut self) -> (r: Result<Expr, ParserError>)
        requires
            old(self).wf(),
        ensures
            final(self).wf(),
            old(self).yields(r, *final(self), sum(old(self).tokens@, old(self).i as int)),
        decreases old(self).tokens.len() - old(self).i, 7int,
    {
        let lhs = self.pl_6()?;

        if self.match_if_is(&Token::Plus) {
            let rhs = self.pl_7()?;
            Ok(Expr::Binary(BinaryOp::add(Box::new(lhs), Box::new(rhs))))
        } else if self.match_if_is(&Token::Minus) {
            let rhs = self.pl_7()?;
            Ok(Expr::Binary(BinaryOp::minus(Box::new(lhs), Box::new(rhs))))
        } else {
            Ok(lhs)
        }
    }

    /// Multiplication, division, and the multiplication of operands that
    /// stand side by side.
    fn pl_6(&mut self) -> (r: Result<Expr, ParserError>)
        requires
            old(self).wf(),
        ensures
            final(self).wf(),
            old(self).yields(r, *final(self), product(old(self).tokens@, old(self).i as int)),
        decreases old(self).tokens.len() - old(self).i, 6int,
    {
        let lhs = self.pl_5()?;

        if self.match_if_is(&Token::Mult) {
            let rhs = self.pl_6()?;
            Ok(Expr::Binary(BinaryOp::mult(Box::new(lhs), Box::new(rhs))))
        } else if self.match_if_is(&Token::Divide) {
            let rhs = self.pl_6()?;
            Ok(Expr::Binary(BinaryOp::divide(Box::new(lhs), Box::new(rhs))))
        } else {
            // another operand may stand beside this one: try to parse it,
            // and if there is none, go back to where the try began
            let i_bak = self.i;
            match self.pl_6() {
                Ok(val) => Ok(Expr::Binary(BinaryOp::mult(Box::new(lhs), Box::new(val)))),
                Err(_) => {
                    self.i = i_bak;
                    Ok(lhs)
                },
            }
        }
    }

    fn pl_5(&mut self) -> (r: Result<Expr, ParserError>)
        requires
            old(self).wf(),
        ensures
            final(self).wf(),
            old(self).yields(r, *final(self), negation(old(self).tokens@, old(self).i as int)),
        decreases old(self).tokens.len() - old(self).i, 5int, 1int,
    {
        self.pl_4_5()
    }

    /// Negation.
    fn pl_4_5(&mut self) -> (r: Result<Expr, ParserError>)
        requires
            old(self).wf(),
        ensures
            final(self).wf(),
            old(self).yields(r, *final(self), negation(old(self).tokens@, old(self).i as int)),
        decreases old(self).tokens.len() - old(self).i, 5int, 0int,
    {
        if self.match_if_is(&Token::Negate) {
            let val = self.pl_4()?;
            Ok(Expr::Negate(Negate { val: Box::new(val) }))
        } else {
            self.pl_4()
        }
    }

    /// Power.
    fn pl_4(&mut self) -> (r: Result<Expr, ParserError>)
        requires
            old(self).wf(),
        ensures
            final(self).wf(),
            old(self).yields(r, *final(self), power(old(self).tokens@, old(self).i as int)),
        decreases old(self).tokens.len() - old(self).i, 4int,
    {
        let lhs = self.pl_3()?;

        if self.match_if_is(&Token::Power) {
            let rhs = self.pl_3()?;
            Ok(Expr::Binary(BinaryOp::power(Box::new(lhs), Box::new(rhs))))
        } else {
            Ok(lhs)
        }
    }

    /// Functions that follow their argument: there are none yet.
    fn pl_3(&mut self) -> (r: Result<Expr, ParserError>)
        requires
            old(self).wf(),
        ensures
            final(self).wf(),
            old(self).yields(r, *final(self), prefix(old(self).tokens@, old(self).i as int)),
        decreases old(self).tokens.len() - old(self).i, 3int,
    {
        self.pl_2()
    }

    /// Functions that precede their argument.
    fn pl_2(&mut self) -> (r: Result<Expr, ParserError>)
        requires
            old(self).wf(),
        ensures
            final(self).wf(),
            old(self).yields(r, *final(self), prefix(old(self).tokens@, old(self).i as int)),
        decreases old(self).tokens.len() - old(self).i, 2int,
    {
        if self.match_if_is(&Token::Not) {
            let val = self.pl_10()?;
            self.match_if_is(&Token::Rparen);
            Ok(Expr::Not(Not { val: Box::new(val) }))
        } else {
            self.pl_1()
        }
    }

    /// Groupings.
    fn pl_1(&mut self) -> (r: Result<Expr, ParserError>)
        requires
            old(self).wf(),
        ensures
            final(self).wf(),
            old(self).yields(r, *final(self), group(old(self).tokens@, old(self).i as int)),
        decreases old(self).tokens.len() - old(self).i, 1int,
    {
        if self.match_if_is(&Token::Lparen) {
            let val = self.pl_10()?;
            self.match_if_is(&Token::Rparen);
            Ok(val)
        } else {
            self.pl_0()
        }
    }

    /// Values and what stands for them.
    fn pl_0(&mut self) -> (r: Result<Expr, ParserError>)
        requires
            old(self).wf(),
        ensures
            final(self).wf(),
            old(self).yields(r, *final(self), leaf(old(self).tokens@, old(self).i as int)),
    {
        match self.token() {
            Token::Number(n) => {
                self.advance();
                Ok(Expr::Literal(Literal::Decimal(n)))
            },
            Token::RealVar(var) => {
                self.advance();
                Ok(Expr::Var(VarRef { var: Variable::RealVar(var) }))
            },
            Token::Scientific(exponent) => {
                self.advance();
                Ok(Expr::Literal(Literal::PowerOfTen(exponent)))
            },
            token => Err(ParserError::UnexpectedToken(token)),
        }
    }

    fn expression(&mut self) -> (r: Result<Statement, ParserError>)
        requires
            old(self).wf(),
        ensures
            final(self).wf(),
            old(self).gives(r, *final(self), expression(old(self).tokens@, old(self).i as int)),
    {
        let stat = Statement::Expression(self.pl_12()?);
        self.match_token(Token::EndOfLine)?;
        Ok(stat)
    }

    /// The variable and the comma with which the operands of `For(`,
    /// `DS<(` and `IS>(` begin.
    fn counter(&mut self) -> (r: Result<Variable, ParserError>)
        requires
            old(self).wf(),
        ensures
            final(self).wf(),
            final(self).tokens == old(self).tokens,
            match token_at(old(self).tokens@, old(self).i as int) {
                Token::RealVar(name) => if token_at(old(self).tokens@, old(self).i + 1)
                    != Token::Comma {
                    r == Err::<Variable, ParserError>(ParserError::MissingToken(Token::Comma))
                } else {
                    r == Ok::<Variable, ParserError>(Variable::RealVar(name)) && final(self).i
                        == old(self).i + 2
                },
                _ => r == Err::<Variable, ParserError>(ParserError::SyntaxError),
            },
    {
        if let Token::RealVar(name) = self.token() {
            self.advance();
            self.match_token(Token::Comma)?;
            Ok(Variable::RealVar(name))
        } else {
            Err(ParserError::SyntaxError)
        }
    }

    fn command(&mut self) -> (r: Result<Statement, ParserError>)
        requires
            old(self).wf(),
        ensures
            final(self).wf(),
            old(self).gives(r, *final(self), command(old(self).tokens@, old(self).i as int)),
    {
        if self.match_if_is(&Token::If) {
            let condition = self.pl_10()?;
            self.match_token(Token::EndOfLine)?;
            Ok(Statement::Command(Command::If(condition)))
        } else if self.match_if_is(&Token::Then) {
            self.match_token(Token::EndOfLine)?;
            Ok(Statement::Command(Command::Then))
        } else if self.match_if_is(&Token::Else) {
            self.match_token(Token::EndOfLine)?;
            Ok(Statement::Command(Command::Else))
        } else if self.match_if_is(&Token::End) {
            self.match_token(Token::EndOfLine)?;
            Ok(Statement::Command(Command::End))
        } else if self.match_if_is(&Token::Disp) {
            let val = self.pl_10()?;
            self.match_token(Token::EndOfLine)?;
            Ok(Statement::Command(Command::Disp(val)))
        } else if self.match_if_is(&Token::While) {
            let condition = self.pl_10()?;
            self.match_token(Token::EndOfLine)?;
            Ok(Statement::Command(Command::While(condition)))
        } else if self.match_if_is(&Token::Repeat) {
            let condition = self.pl_10()?;
            self.match_token(Token::EndOfLine)?;
            Ok(Statement::Command(Command::Repeat(condition)))
        } else if self.match_if_is(&Token::For) {
            // a variable, the start, the limit, and possibly the step
            let var = self.counter()?;
            let start = self.pl_10()?;
            self.match_token(Token::Comma)?;
            let stop = self.pl_10()?;
            let inc = if self.match_if_is(&Token::Comma) {
                self.pl_10()?
            } else {
                Expr::Value(Value::NumValue(Number::one()))
            };
            self.match_if_is(&Token::Rparen);

            Ok(Statement::Command(Command::For(For { var, start, stop, inc })))
        } else if self.match_if_is(&Token::DecrementSkip) {
            let var = self.counter()?;
            let bound = self.pl_10()?;
            self.match_if_is(&Token::Rparen);
            Ok(Statement::Command(Command::DecrementSkip(var, bound)))
        } else if self.match_if_is(&Token::IncrementSkip) {
            let var = self.counter()?;
            let bound = self.pl_10()?;
            self.match_if_is(&Token::Rparen);
            Ok(Statement::Command(Command::IncrementSkip(var, bound)))
        } else {
            match self.token() {
                Token::Lbl(label) => {
                    self.advance();
                    self.match_token(Token::EndOfLine)?;
                    Ok(Statement::Command(Command::Lbl(label)))
                },
                Token::Goto(label) => {
                    self.advance();
                    self.match_token(Token::EndOfLine)?;
                    Ok(Statement::Command(Command::Goto(label)))
                },
                token => Err(ParserError::NotYetImplemented(token)),
            }
        }
    }

    /// Whether the next statement is a command or an expression.
    fn is_command(&self) -> (r: bool)
        ensures
            r == begins_command(token_at(self.tokens@, self.i as int)),
    {
        match self.token() {
            Token::If
            | Token::Else
            | Token::For
            | Token::While
            | Token::Repeat
            | Token::End
            | Token::Then
            | Token::Disp
            | Token::Lbl(_)
            | Token::Goto(_)
            | Token::DecrementSkip
            | Token::IncrementSkip => true,
            _ => false,
        }
    }

    fn statement(&mut self) -> (r: Result<Statement, ParserError>)
        requires
            old(self).wf(),
        ensures
            final(self).wf(),
            old(self).gives(r, *final(self), statement(old(self).tokens@, old(self).i as int)),
    {
        if self.is_command() {
            self.command()
        } else {
            self.expression()
        }
    }

    /// Parses the statements up to the end of input and appends each to the
    /// program as soon as it is parsed.
    fn tib_program(&mut self, prog: &mut Program) -> (r: Result<(), ParserError>)
        requires
            old(self).wf(),
            old(self).i == 0,
            old(prog).wf(),
            old(prog)@.statements.len() + old(self).tokens.len() + 1 < usize::MAX,
        ensures
            final(prog).wf(),
            final(prog)@ == (ProgramView {
                statements: old(prog)@.statements + program(old(self).tokens@).0,
                ..old(prog)@
            }),
            r == program(old(self).tokens@).1,
    {
        let ghost mut parsed: Seq<Statement> = Seq::empty();
        assert(old(prog)@.statements + parsed =~= old(prog)@.statements);
        while self.more_tokens()
            invariant
                self.wf(),
                self.tokens == old(self).tokens,
                prog.wf(),
                parsed.len() <= self.i,
                old(prog)@.statements.len() + old(self).tokens.len() + 1 < usize::MAX,
                prog@ == (ProgramView {
                    statements: old(prog)@.statements + parsed,
                    ..old(prog)@
                }),
                statements_from(self.tokens@, self.i as int, parsed) == program(self.tokens@),
            decreases self.tokens.len() - self.i,
        {
            if self.tokens[self.i].is(&Token::EndOfLine) {
                self.advance();
                continue;
            }
            let state = self.statement()?;
            proof {
                assert((old(prog)@.statements + parsed).push(state) =~= old(prog)@.statements
                    + parsed.push(state));
                parsed = parsed.push(state);
            }
            prog.push(state);
        }

        Ok(())
    }
}

/// Parses the tokens and appends the statements that they spell to
/// `program`. The statements before the first error are appended even if
/// there is one.
pub fn parse(tokens: &Vec<Token>, program: &mut Program) -> (r: Result<(), ParserError>)
    requires
        old(program).wf(),
        old(program)@.statements.len() + tokens.len() + 1 < usize::MAX,
    ensures
        final(program).wf(),
        final(program)@ == (ProgramView {
            statements: old(program)@.statements + self::program(tokens@).0,
            ..old(program)@
        }),
        r == self::program(tokens@).1,
        old(program)@.blocks_match() ==> final(program)@.blocks_match(),
{
    let mut parser = Parser { tokens, i: 0 };

    let r = parser.tib_program(program);
    proof {
        if old(program)@.blocks_match() {
            lemma_growth_keeps_blocks_matched(old(program)@, self::program(tokens@).0);
        }
    }
    r
}

} // verus!
