use tib::context::Variable;
use tib::executor::Program;
use tib::expr::{Expr, Literal, Operator};
use tib::lexer::{lex_str, Token};
use tib::parser::{parse, ParserError};
use tib::statement::{Command, Label, Statement};
use tib::value::Value;

fn statements(input: &str) -> Vec<String> {
    let mut program = Program::new();
    match parse(&lex_str(input), &mut program) {
        Ok(()) => (),
        Err(err) => panic!("{:?}", err),
    }
    program.statements().iter().map(show_statement).collect()
}

fn failure(input: &str) -> (usize, ParserError) {
    let mut program = Program::new();
    match parse(&lex_str(input), &mut program) {
        Ok(()) => panic!("parsed: {:?}", program.statements()),
        Err(err) => (program.len(), err),
    }
}

fn sign(op: Operator) -> &'static str {
    match op {
        Operator::Or => "or",
        Operator::Xor => "xor",
        Operator::And => "and",
        Operator::Equal => "=",
        Operator::NotEqual => "!=",
        Operator::Greater => ">",
        Operator::GreaterEqual => ">=",
        Operator::Less => "<",
        Operator::LessEqual => "<=",
        Operator::Add => "+",
        Operator::Minus => "-",
        Operator::Mult => "*",
        Operator::Divide => "/",
        Operator::Power => "^",
    }
}

fn name(var: &Variable) -> String {
    match var {
        Variable::RealVar(c) => c.to_string(),
        Variable::Ans => String::from("Ans"),
    }
}

fn show(e: &Expr) -> String {
    match e {
        Expr::Value(Value::NumValue(n)) => format!("{}", f64::from_bits(n.bits)),
        Expr::Value(Value::ValueList(_)) => String::from("{..}"),
        Expr::Literal(Literal::Decimal(text)) => text.clone(),
        Expr::Literal(Literal::PowerOfTen(exponent)) => format!("e{}", exponent),
        Expr::Var(node) => name(&node.var),
        Expr::Store(node) => format!("({} -> {})", show(&node.val), name(&node.var)),
        Expr::Binary(node) => format!("({} {} {})", show(&node.lhs), sign(node.op), show(&node.rhs)),
        Expr::Not(node) => format!("not({})", show(&node.val)),
        Expr::Negate(node) => format!("neg({})", show(&node.val)),
        Expr::List(_) => String::from("{..}"),
    }
}

fn label(label: &Label) -> String {
    match label.second {
        Some(second) => format!("{}{}", label.first, second),
        None => label.first.to_string(),
    }
}

fn show_statement(statement: &Statement) -> String {
    match statement {
        Statement::Expression(e) => show(e),
        Statement::Command(command) => match command {
            Command::If(e) => format!("If {}", show(e)),
            Command::Then => String::from("Then"),
            Command::Else => String::from("Else"),
            Command::End => String::from("End"),
            Command::For(header) => format!(
                "For {} from {} to {} by {}",
                name(&header.var),
                show(&header.start),
                show(&header.stop),
                show(&header.inc)
            ),
            Command::While(e) => format!("While {}", show(e)),
            Command::Repeat(e) => format!("Repeat {}", show(e)),
            Command::Disp(e) => format!("Disp {}", show(e)),
            Command::Lbl(l) => format!("Lbl {}", label(l)),
            Command::Goto(l) => format!("Goto {}", label(l)),
            Command::DecrementSkip(var, e) => format!("DS {} {}", name(var), show(e)),
            Command::IncrementSkip(var, e) => format!("IS {} {}", name(var), show(e)),
        },
    }
}

#[test]
fn test_simple_addition() {
    let mut program = Program::new();

    assert!(parse(&lex_str("2+2\n"), &mut program).is_ok());
    assert_eq!(program.len(), 1);
}

#[test]
fn operators_group_to_the_right() {
    assert_eq!(statements("1-2-3\n"), ["(1 - (2 - 3))"]);
    assert_eq!(statements("1/2*3\n"), ["(1 / (2 * 3))"]);
    assert_eq!(statements("1 or 2 xor 3\n"), ["(1 or (2 xor 3))"]);
    assert_eq!(statements("1 and 2 and 3\n"), ["(1 and (2 and 3))"]);
    assert_eq!(statements("1<2=3\n"), ["(1 < (2 = 3))"]);
}

#[test]
fn levels_of_precedence() {
    assert_eq!(
        statements("1 or 2 and 3 = 4 + 5 * --6 ^ 7 -> A\n"),
        ["((1 or (2 and (3 = (4 + (5 * neg((6 ^ 7))))))) -> A)"]
    );
    assert_eq!(statements("2*3+4\n"), ["((2 * 3) + 4)"]);
    assert_eq!(statements("2+3*4\n"), ["(2 + (3 * 4))"]);
    assert_eq!(statements("not(1 or 0) and 1\n"), ["(not((1 or 0)) and 1)"]);
    assert_eq!(statements("not(1 or 0\n"), ["not((1 or 0))"]);
    // a power takes one exponent
    assert_eq!(statements("2^3\n"), ["(2 ^ 3)"]);
    assert!(matches!(
        failure("2^3^4\n"),
        (0, ParserError::MissingToken(Token::EndOfLine))
    ));
}

#[test]
fn side_by_side_multiplies() {
    assert_eq!(statements("2(3-4)\n"), ["(2 * (3 - 4))"]);
    assert_eq!(statements("2A\n"), ["(2 * A)"]);
    assert_eq!(statements("4e5\n"), ["(4 * e5)"]);
    assert_eq!(statements("(5)4\n"), ["(5 * 4)"]);
    assert_eq!(statements("2(3(4\n"), ["(2 * (3 * 4))"]);
    assert_eq!(statements("1.0.1\n"), ["(1.0 * .1)"]);
    assert_eq!(statements("AB+C\n"), ["((A * B) + C)"]);
}

#[test]
fn a_failed_try_for_an_operand_is_undone() {
    // behind the 2 an operand is tried and fails after its parenthesis; the
    // parser is then back before the parenthesis, where the line has to end
    assert!(matches!(
        failure("2(+\n"),
        (0, ParserError::MissingToken(Token::EndOfLine))
    ));
}

#[test]
fn statements_of_every_kind() {
    assert_eq!(
        statements(
            "If A: Then\nElse\nEnd\nWhile A<1\nRepeat A\nDisp A\nLbl A1\nGoto A1\nFor(A,1,2)\nFor(B,1,2,3\nDS<(A,6\nIS>(B,2)\nIS<(B,2)\n"
        ),
        [
            "If A",
            "Then",
            "Else",
            "End",
            "While (A < 1)",
            "Repeat A",
            "Disp A",
            "Lbl A1",
            "Goto A1",
            "For A from 1 to 2 by 1",
            "For B from 1 to 2 by 3",
            "DS A 6",
            "IS B 2",
            "IS B 2"
        ]
    );
}

#[test]
fn empty_lines_are_passed_over() {
    assert_eq!(statements("\n\n1\n\n:2\n:"), ["1", "2"]);
    assert_eq!(statements(""), [] as [&str; 0]);
}

#[test]
fn parser_errors() {
    assert!(matches!(
        failure("1"),
        (0, ParserError::MissingToken(Token::EndOfLine))
    ));
    assert!(matches!(failure("1+\n"), (0, ParserError::UnexpectedToken(Token::EndOfLine))));
    assert!(matches!(failure(")\n"), (0, ParserError::UnexpectedToken(Token::Rparen))));
    assert!(matches!(failure("1->2\n"), (0, ParserError::SyntaxError)));
    assert!(matches!(failure("For(1,2,3)\n"), (0, ParserError::SyntaxError)));
    assert!(matches!(failure("DS<(1,2)\n"), (0, ParserError::SyntaxError)));
    assert!(matches!(
        failure("For(A 1,2)\n"),
        (0, ParserError::MissingToken(Token::Comma))
    ));
    assert!(matches!(
        failure("For(A,1)\n"),
        (0, ParserError::MissingToken(Token::Comma))
    ));
    assert!(matches!(
        failure("Then 1\n"),
        (0, ParserError::MissingToken(Token::EndOfLine))
    ));
    // the statements before the error are taken in
    assert!(matches!(failure("1\n2\n+\n"), (2, ParserError::UnexpectedToken(Token::Plus))));
}

#[test]
fn parse_appends_to_the_program() {
    let mut program = Program::new();
    assert!(parse(&lex_str("1\n"), &mut program).is_ok());
    assert!(parse(&lex_str("2\nLbl A\n"), &mut program).is_ok());
    let shown: Vec<String> = program.statements().iter().map(show_statement).collect();
    assert_eq!(shown, ["1", "2", "Lbl A"]);
}
