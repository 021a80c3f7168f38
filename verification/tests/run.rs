use tib::context::Variable;
use tib::error::ExecError;
use tib::executor::{execute, Block, Program};
use tib::host::{Arithmetic, Query};
use tib::lexer::lex_str;
use tib::number::Number;
use tib::parser::parse;
use tib::statement::{Command, Label, Statement};
use tib::value::Value;

/// The arithmetic of the machine's doubles; an unset variable reads as 42.
fn host(query: Query) -> Number {
    let value = match query {
        Query::Decimal(text) => text.parse::<f64>().unwrap(),
        Query::PowerOfTen(exponent) => 10.0_f64.powf(exponent as f64),
        Query::Compute(operation, a, b) => {
            let (a, b) = (f64::from_bits(a.bits), f64::from_bits(b.bits));
            match operation {
                Arithmetic::Add => a + b,
                Arithmetic::Subtract => a - b,
                Arithmetic::Multiply => a * b,
                Arithmetic::Divide => a / b,
                Arithmetic::Power => a.powf(b),
            }
        }
        Query::Random => 42.0,
    };
    Number::from_bits(value.to_bits())
}

fn load(input: &str) -> Program {
    let mut program = Program::new();
    match parse(&lex_str(input), &mut program) {
        Ok(()) => (),
        Err(err) => panic!("{:?}", err),
    }
    program
}

fn float(value: &Value) -> f64 {
    match value {
        Value::NumValue(n) => f64::from_bits(n.bits),
        Value::ValueList(_) => panic!("a list"),
    }
}

/// Runs a program to its end and gives `Ans`.
fn ans(input: &str) -> f64 {
    let mut program = load(input);
    assert_eq!(execute(&mut program, &host, u64::MAX), Ok(()));
    assert!(program.over());
    float(&program.ctx.ans)
}

/// Runs a program that fails and gives the error.
fn error(input: &str) -> ExecError {
    let mut program = load(input);
    match execute(&mut program, &host, u64::MAX) {
        Ok(()) => panic!("ran through"),
        Err(err) => err,
    }
}

/// The number of open blocks behind each step of a run, with the program
/// counter.
fn trace(input: &str) -> Vec<(usize, usize)> {
    let mut program = load(input);
    let mut seen = vec![(program.pc(), program.blockstack().len())];
    while !program.over() {
        assert_eq!(program.step(&host), Ok(()));
        seen.push((program.pc(), program.blockstack().len()));
    }
    seen
}

#[test]
fn scenarios() {
    assert_eq!(ans("2+2\n"), 4.0);
    assert_eq!(ans("If 0\n1+1\n"), 0.0);
    assert_eq!(ans("If 1\nThen\n1+1\nEnd\n"), 2.0);
    assert_eq!(ans("If 0\nThen\n1+1\nElse\n3+3\nEnd\n"), 6.0);
    assert_eq!(ans("3->B\nFor(A,0,5)\n2*B->B\nEnd\nB\n"), 192.0);
    assert_eq!(ans("0->B\nWhile B<5\nB+1->B\nEnd\nB\n"), 5.0);
    assert_eq!(ans("0->B\nRepeat B>5\nB+1->B\nEnd\nB\n"), 6.0);
    assert_eq!(ans("0->A\nLbl A\nA+1->A\nIf A<5\nGoto A\nA\n"), 5.0);
    assert_eq!(ans("5->A\nDS<(A,6\n0->A\nA\n"), 4.0);
    assert_eq!(ans("7->A\nDS<(A,6\n0->A\nA\n"), 0.0);
    assert_eq!(ans("2(3-4)\n"), -2.0);
}

#[test]
fn repeat_runs_until_its_condition_holds() {
    // the body runs once before the condition is looked at
    assert_eq!(ans("0->B\nRepeat B<5\nB+1->B\nEnd\nB\n"), 1.0);
    assert_eq!(ans("9->B\nRepeat 1\nB+1->B\nEnd\nB\n"), 10.0);
    // and again as long as the condition fails
    assert_eq!(ans("0->B\nRepeat B=3\nB+1->B\nEnd\nB\n"), 3.0);
    assert_eq!(ans("0->B\nRepeat B>=5\nB+1->B\nEnd\nB\n"), 5.0);
}

#[test]
fn increment_skip() {
    assert_eq!(ans("7->A\nIS>(A,6\n0->A\nA\n"), 8.0);
    assert_eq!(ans("1->B\nIS>(B,2)\n0->B\nB\n"), 0.0);
    // the variable is counted even where nothing is skipped
    assert_eq!(ans("1->B\nIS>(B,9)\nB\n"), 2.0);
    assert_eq!(ans("1->B\nDS<(B,--9)\nB\n"), 0.0);
}

#[test]
fn for_loops() {
    // a loop whose start is past its limit runs no body, but its End counts once
    assert_eq!(ans("0->B\nFor(A,5,1)\nB+1->B\nEnd\nB\n"), 0.0);
    assert_eq!(ans("For(A,5,1)\nEnd\nA\n"), 6.0);
    assert_eq!(ans("For(A,1,3)\nEnd\nA\n"), 4.0);
    assert_eq!(ans("For(A,1,2,0.5)\nEnd\nA\n"), 2.5);
    // the limit is worked out anew on each round
    assert_eq!(ans("3->L\nFor(A,1,L)\n1->L\nEnd\nA\n"), 2.0);
}

#[test]
fn a_skipped_block_is_passed_over_whole() {
    assert_eq!(
        ans("1->Z\nWhile 0\nWhile 1\nIf 1\nThen\n2->Z\nElse\n3->Z\nEnd\nEnd\nFor(A,1,2)\nRepeat 1\nEnd\nEnd\n4->Z\nEnd\nZ+10\n"),
        11.0
    );
    // an If without Then opens no block, so its line does not count
    assert_eq!(ans("1->Z\nWhile 0\nIf 1\n2->Z\nEnd\nZ+10\n"), 11.0);
    // the false arm of an If is found behind inner blocks with arms of their own
    assert_eq!(
        ans("If 0\nThen\nIf 1\nThen\n1\nElse\n2\nEnd\n3\nElse\n4\nEnd\n"),
        4.0
    );
    // and the true arm leaves the false one out
    assert_eq!(
        ans("If 1\nThen\n1->Z\nElse\nIf 1\nThen\n2->Z\nElse\n3->Z\nEnd\n4->Z\nEnd\nZ+10\n"),
        11.0
    );
}

#[test]
fn errors_of_the_run() {
    assert_eq!(error("Then\n"), ExecError::UnexpectedThen);
    assert_eq!(error("1\nElse\n"), ExecError::UnexpectedElse);
    assert_eq!(error("End\n"), ExecError::UnexpectedEnd);
    assert_eq!(error("Goto A\n"), ExecError::UnknownLabel);
    assert_eq!(error("1/0\n"), ExecError::DivideByZero);
    assert_eq!(error("If 0\nThen\n1\n"), ExecError::UnexpectedEof);
    assert_eq!(error("While 0\n1\n"), ExecError::UnexpectedEof);
    assert_eq!(error("For(A,2,1)\n1\n"), ExecError::UnexpectedEof);
    // an If at the very end has nothing to guard
    assert_eq!(error("If 1\n"), ExecError::UnexpectedEof);
    // an Else in a loop belongs to nothing
    assert_eq!(error("While 1\nElse\nEnd\n"), ExecError::UnexpectedElse);
    assert_eq!(error("While 0\nElse\nEnd\n"), ExecError::UnexpectedElse);
    assert_eq!(error("If 0\nThen\nWhile 1\nElse\nEnd\nEnd\n"), ExecError::UnexpectedElse);
    // a second Else: the true arm meets it in its scan, the false arm runs into it
    assert_eq!(error("If 1\nThen\nElse\nElse\nEnd\n"), ExecError::UnexpectedElse);
    assert_eq!(error("If 0\nThen\nElse\nElse\nEnd\n"), ExecError::UnexpectedElse);
}

#[test]
fn conditions_have_to_be_numbers() {
    let mut program = Program::new();
    let list = tib::expr::Expr::Value(Value::ValueList(vec![Number::one()]));
    program.push(Statement::Command(Command::If(list)));
    program.push(Statement::Command(Command::End));
    assert_eq!(execute(&mut program, &host, 10), Err(ExecError::TypeMismatch));
}

#[test]
fn a_failed_step_leaves_the_program_counter() {
    let mut program = load("1\n2/0\n3\n");
    assert_eq!(execute(&mut program, &host, u64::MAX), Err(ExecError::DivideByZero));
    assert_eq!(program.pc(), 1);
    assert_eq!(float(&program.ctx.ans), 1.0);
    // a scan that runs off the program leaves the program counter on the header
    let mut program = load("1\nWhile 0\n2\n");
    assert_eq!(execute(&mut program, &host, u64::MAX), Err(ExecError::UnexpectedEof));
    assert_eq!(program.pc(), 1);
    assert_eq!(program.blockstack().as_slice(), [Block::WhileBlock(1)]);
}

#[test]
fn a_run_stops_when_its_steps_are_used_up() {
    let mut program = load("0->A\nWhile 1\nA+1->A\nEnd\n");
    assert_eq!(execute(&mut program, &host, 1000), Ok(()));
    assert!(!program.over());
    // 1 step for the store, 1 for the header, then 2 for each round
    assert_eq!(float(&program.ctx.ans), 499.0);
    assert_eq!(execute(&mut program, &host, 0), Ok(()));
    assert_eq!(float(&program.ctx.ans), 499.0);
    // and goes on where it stopped
    assert_eq!(execute(&mut program, &host, 2), Ok(()));
    assert_eq!(float(&program.ctx.ans), 500.0);
}

#[test]
fn steps_one_by_one() {
    let mut program = load("1\n2\n");
    assert_eq!(program.pc(), 0);
    assert!(!program.over());
    assert!(matches!(program.next_statement(), Ok(Statement::Expression(_))));
    assert!(matches!(program.peek_next(), Ok(Statement::Expression(_))));
    assert_eq!(program.next_then(), Ok(false));
    assert_eq!(program.step(&host), Ok(()));
    assert_eq!(program.pc(), 1);
    assert_eq!(float(&program.ctx.ans), 1.0);
    assert_eq!(program.peek_next().err(), Some(ExecError::UnexpectedEof));
    assert_eq!(program.next_then(), Err(ExecError::UnexpectedEof));
    assert_eq!(program.step(&host), Ok(()));
    assert!(program.over());
    assert_eq!(program.next_statement().err(), Some(ExecError::UnexpectedEof));
    assert_eq!(float(&program.ctx.ans), 2.0);
    program.set_pc(0);
    assert_eq!(program.pc(), 0);
    assert!(matches!(load("If 1\nThen\n").next_then(), Ok(true)));
}

#[test]
fn ans_is_the_value_of_the_last_expression_statement() {
    let mut program = load("5\nDisp 7\nLbl A\n1->B\nIf 0\n9\n");
    let mut seen = Vec::new();
    while !program.over() {
        assert_eq!(program.step(&host), Ok(()));
        seen.push(float(&program.ctx.ans));
    }
    assert_eq!(seen, [5.0, 5.0, 5.0, 1.0, 1.0]);
}

#[test]
fn disp_shows_values_in_order() {
    let mut program = load("Disp 1+1\n3->A\nDisp A\nDisp A*A\n");
    assert_eq!(execute(&mut program, &host, u64::MAX), Ok(()));
    let shown: Vec<f64> = program.display.iter().map(float).collect();
    assert_eq!(shown, [2.0, 3.0, 9.0]);
    // what is shown is no result
    assert_eq!(float(&program.ctx.ans), 3.0);
}

#[test]
fn labels_go_to_their_first_definition() {
    assert_eq!(
        ans("0->A\nGoto B\n1->A\nLbl B\nA+10->A\nIf A<30\nGoto C\nA\nLbl B\nLbl C\nA+100->A\n"),
        110.0
    );
    // a label may be defined behind the jump and in a later piece of text
    let mut program = load("1\nGoto Z\n");
    assert_eq!(execute(&mut program, &host, u64::MAX), Err(ExecError::UnknownLabel));
    assert_eq!(program.pc(), 1);
    parse(&lex_str("2\nLbl Z\n3\n"), &mut program).unwrap();
    assert_eq!(execute(&mut program, &host, u64::MAX), Ok(()));
    assert_eq!(float(&program.ctx.ans), 3.0);
}

#[test]
fn goto_leaves_the_block_stack() {
    let mut program = load("While 1\nGoto A\nEnd\nLbl A\n5\n");
    assert_eq!(execute(&mut program, &host, u64::MAX), Ok(()));
    assert_eq!(float(&program.ctx.ans), 5.0);
    assert_eq!(program.blockstack().as_slice(), [Block::WhileBlock(0)]);
}

#[test]
fn the_stack_follows_the_nesting() {
    assert_eq!(
        trace("1\nIf 1\nThen\nWhile 0\n2\nEnd\nFor(A,1,2)\nRepeat 1\nEnd\nEnd\nElse\n3\nEnd\n4\n"),
        [
            (0, 0),
            (1, 0),
            (3, 1),
            (5, 2),
            (6, 1),
            (7, 2),
            (8, 3),
            (9, 2),
            (7, 2),
            (8, 3),
            (9, 2),
            (10, 1),
            (12, 1),
            (13, 0),
            (14, 0)
        ]
    );
}

#[test]
fn every_block_names_its_header() {
    let mut program =
        load("For(A,1,3)\nIf A=2\nThen\nWhile A<9\nRepeat A>4\nA+1->A\nEnd\nEnd\nElse\n1\nEnd\nEnd\n");
    while !program.over() {
        assert_eq!(program.step(&host), Ok(()));
        for block in program.blockstack() {
            let header = &program.statements()[block.header_pc()];
            assert!(matches!(
                (block, header),
                (Block::IfBlock(_, _), Statement::Command(Command::If(_)))
                    | (Block::ForBlock(_), Statement::Command(Command::For(_)))
                    | (Block::WhileBlock(_), Statement::Command(Command::While(_)))
                    | (Block::RepeatBlock(_), Statement::Command(Command::Repeat(_)))
            ));
        }
    }
    assert!(program.blockstack().is_empty());
}

#[test]
fn the_program_counter_stays_in_range() {
    let mut program = load("5->A\nLbl A\nDS<(A,0\nGoto A\nA\n");
    while !program.over() {
        assert_eq!(program.step(&host), Ok(()));
        assert!(program.pc() <= program.len());
    }
    // at the very end there is nothing to skip
    let mut program = load("5->A\nDS<(A,6\n");
    assert_eq!(execute(&mut program, &host, u64::MAX), Ok(()));
    assert_eq!(program.len(), 2);
    assert_eq!(program.pc(), 2);
    assert!(program.over());
    assert_eq!(float(&program.ctx.get(&Variable::RealVar('A'), &host)), 4.0);
    // so a statement that comes later is run
    parse(&lex_str("A+10\n"), &mut program).unwrap();
    assert_eq!(execute(&mut program, &host, u64::MAX), Ok(()));
    assert_eq!(float(&program.ctx.ans), 14.0);
    let mut program = load("1->A\nIS>(A,0\n");
    assert_eq!(execute(&mut program, &host, u64::MAX), Ok(()));
    assert_eq!(program.pc(), 2);
}

#[test]
fn a_fresh_program() {
    let program = Program::new();
    assert!(program.over());
    assert_eq!(program.len(), 0);
    assert_eq!(program.pc(), 0);
    assert!(program.blockstack().is_empty());
    assert!(program.statements().is_empty());
    assert!(program.display.is_empty());
    assert_eq!(float(&program.ctx.ans), 0.0);
    assert!(program.ctx.reals.is_empty());
}

#[test]
fn unterminated_blocks_end_with_the_text() {
    assert_eq!(ans("If 1\nThen\n1+1\n"), 2.0);
    assert_eq!(ans("For(A,0,5)\nFor(B,0,5)\n1+1\n"), 2.0);
    // the true arm of an If looks for the End as soon as it meets the Else
    let mut program = load("If 1\nThen\n1\nElse\n");
    assert_eq!(execute(&mut program, &host, u64::MAX), Err(ExecError::UnexpectedEof));
    assert_eq!(float(&program.ctx.ans), 1.0);
}

#[test]
fn nested_parentheses() {
    let mut text = String::new();
    for _ in 0..100 {
        text.push('(');
    }
    text.push('7');
    for _ in 0..100 {
        text.push(')');
    }
    text.push('\n');
    assert_eq!(ans(&text), 7.0);
}

#[test]
fn texts_that_mean_the_same_evaluate_the_same() {
    assert_eq!(ans("2(3-4)\n"), ans("2*(3-4)\n"));
    assert_eq!(ans("2(3-4\n"), ans("2*(3-4)\n"));
    assert_eq!(ans("4e2\n"), ans("4*e2\n"));
    assert_eq!(ans("not(0\n"), ans("not(0)\n"));
    assert_eq!(ans("1:2:3\n"), ans("1\n2\n3\n"));
    assert_eq!(ans("For(A,1,3\nEnd\nA\n"), ans("For(A,1,3,1)\nEnd\nA\n"));
}

#[test]
fn blocks_know_their_headers() {
    assert_eq!(Block::IfBlock(3, true).header_pc(), 3);
    assert_eq!(Block::ForBlock(4).header_pc(), 4);
    assert_eq!(Block::WhileBlock(5).header_pc(), 5);
    assert_eq!(Block::RepeatBlock(6).header_pc(), 6);
}

#[test]
fn labels_have_keys_of_their_own() {
    let names = [
        Label { first: 'A', second: None },
        Label { first: 'A', second: Some('\0') },
        Label { first: 'A', second: Some('A') },
        Label { first: 'B', second: None },
        Label { first: '\0', second: Some('A') },
        Label { first: 'θ', second: Some('9') },
        Label { first: char::MAX, second: Some(char::MAX) },
    ];
    for a in names {
        for b in names {
            assert_eq!(a.cache_key() == b.cache_key(), a == b);
        }
    }
    assert_eq!(Label { first: 'A', second: None }.cache_key(), 65 * 0x20_0000);
    assert_eq!(Label { first: 'A', second: Some('B') }.cache_key(), 65 * 0x20_0000 + 67);
}
