use rand::Rng;
use tib::error::ExecError;
use tib::executor::{execute, Program};
use tib::host::{Arithmetic, Query};
use tib::lexer::lex_str;
use tib::number::Number;
use tib::parser::parse;
use tib::value::Value;

/// The arithmetic of the machine's doubles.
fn host(query: Query) -> Number {
    let value = match query {
        Query::Decimal(text) => text.parse::<f64>().unwrap(),
        Query::PowerOfTen(exponent) => 10.0_f64.powf(exponent as f64),
        Query::Compute(operation, a, b) => {
            let (a, b) = (f64::from_bits(a.bits), f64::from_bits(b.bits));
            match operation {
                Arithmetic::Add => a + b,
                Arithmetic::Subtract => a - b,
                Arithmetic::Multiply => a * b,
                Arithmetic::Divide => a / b,
                Arithmetic::Power => a.powf(b),
            }
        }
        Query::Random => rand::thread_rng().gen_range(-1e20..=1e20),
    };
    Number::from_bits(value.to_bits())
}

/// What a program left in `Ans`.
#[derive(Debug)]
struct Ans(Value);

impl PartialEq<f64> for Ans {
    fn eq(&self, other: &f64) -> bool {
        match &self.0 {
            Value::NumValue(n) => f64::from_bits(n.bits) == *other,
            _ => panic!("Not implemented!"),
        }
    }
}

impl PartialEq<bool> for Ans {
    fn eq(&self, other: &bool) -> bool {
        match &self.0 {
            Value::NumValue(_) => self.0.is_bool(*other),
            _ => panic!("Not implemented!"),
        }
    }
}

fn exec_str(input: String) -> Ans {
    let mut program = Program::new();
    match parse(&lex_str(&input), &mut program) {
        Result::Ok(_) => (),
        Result::Err(err) => panic!("{:?} oops", err),
    }
    match execute(&mut program, &host, u64::MAX) {
        Result::Ok(_) => (),
        Result::Err(err) => {
            if err != ExecError::UnexpectedEof {
                panic!("{:?} oops 2", err)
            }
        }
    }

    return Ans(program.ctx.ans);
}

fn exec(input: &str) -> Ans {
    exec_str(String::from(input))
}

#[test]
fn test_binary_ops_numbers() {
    assert_eq!(exec("2+2\n"), 4.0);
    assert_eq!(exec("2-2\n"), 0.0);
    assert_eq!(exec("2*2\n"), 4.0);
    assert_eq!(exec("2/4\n"), 0.5);
    assert_eq!(exec("--2\n"), -2.0);
    assert_eq!(exec("2^4\n"), 16.0);
}

#[test]
fn test_logic_binary() {
    assert_eq!(exec("1 or 0\n"), true);
    assert_eq!(exec("1 or 0\n"), true);
    assert_eq!(exec("0 or 0\n"), false);

    assert_eq!(exec("1 xor 0\n"), true);
    assert_eq!(exec("1 xor 1\n"), false);
    assert_eq!(exec("0 or 0\n"), false);

    assert_eq!(exec("1 and 1\n"), true);
    assert_eq!(exec("1 and 0\n"), false);
    assert_eq!(exec("0 and 0\n"), false);

    assert_eq!(exec("not(1)\n"), false);
    assert_eq!(exec("not(0)\n"), true);
    assert_eq!(exec("not(1\n"), false);
    assert_eq!(exec("not(0\n"), true);
}

#[test]
fn test_logic_numbers() {
    // believe it or not, this was a bug
    assert_eq!(exec("2 or 0\n"), true);
    assert_eq!(exec("12 xor 0\n"), true);
    assert_eq!(exec("not(13)\n"), false);
}

#[test]
fn test_logic_expression() {
    assert_eq!(exec("1+1 or 0\n"), true);
}

#[test]
fn test_equality_ops() {
    assert_eq!(exec("1 = 1\n"), true);
    assert_eq!(exec("1 = 0\n"), false);

    assert_eq!(exec("1 != 1\n"), false);
    assert_eq!(exec("1 != 0\n"), true);

    assert_eq!(exec("1 > 0\n"), true);
    assert_eq!(exec("1 > 1\n"), false);
    assert_eq!(exec("1 > 2\n"), false);

    assert_eq!(exec("1 > 0\n"), true);
    assert_eq!(exec("1 >= 1\n"), true);
    assert_eq!(exec("1 > 2\n"), false);

    assert_eq!(exec("1 < 0\n"), false);
    assert_eq!(exec("1 < 1\n"), false);
    assert_eq!(exec("1 < 2\n"), true);

    assert_eq!(exec("1 < 0\n"), false);
    assert_eq!(exec("1 <= 1\n"), true);
    assert_eq!(exec("1 < 2\n"), true);
}

#[test]
fn test_if_basic() {
    assert_eq!(
        exec(
            "
        If 0
        1+1
    "
        ),
        0.0
    );

    assert_eq!(
        exec(
            "
        If 1
        1+1
    "
        ),
        2.0
    );

    assert_eq!(
        exec(
            "
        If 1+1 or 0
        1+1
    "
        ),
        2.0
    );
}

#[test]
fn test_if_then() {
    assert_eq!(
        exec(
            "
        If 1
        Then
        1+1
        End
    "
        ),
        2.0
    );

    assert_eq!(
        exec(
            "
        If 0
        Then
        1+1
        End
    "
        ),
        0.0
    );

    assert_eq!(
        exec(
            "
        If 1
        Then
        1+1
    "
        ),
        2.0
    );
}

#[test]
fn test_if_then_else_true() {
    assert_eq!(
        exec(
            "
        If 1
        Then
            1+1
        Else
            2+2
        End
    "
        ),
        2.0
    );
}

#[test]
fn test_if_then_else_false() {
    assert_eq!(
        exec(
            "
        If 0
        Then
            1+1
        Else
            3+3
        End
    "
        ),
        6.0
    );
}

#[test]
fn test_if_then_else_no_end() {
    assert_eq!(
        exec(
            "
        If 1
        Then
            1+1
        Else
            4+4
    "
        ),
        2.0
    );
}

#[test]
fn test_singleline_if() {
    assert_eq!(
        exec(
            "
        1+1
        If 0: Then
            1+2
        End
    "
        ),
        2.0
    );

    assert_eq!(
        exec(
            "
        If 1: Then
            1+1
        End
    "
        ),
        2.0
    );

    assert_eq!(
        exec(
            "
        If 0: Then
            1+1
        Else:
            2+2
        End
    "
        ),
        4.0
    );
}

#[test]
fn test_if_nested() {
    assert_eq!(
        exec(
            "
        2+2
        If 1
        Then
            If 0
                1+1
        End
    "
        ),
        4.0
    );

    assert_eq!(
        exec(
            "
        2+2
        If 1
        Then
            If 0
                1+1
    "
        ),
        4.0
    );

    assert_eq!(
        exec(
            "
        2+2
        If 1
        Then
            If 1
                1+1
        End
    "
        ),
        2.0
    );

    assert_eq!(
        exec(
            "
        If 1
        Then
            1+1
            If 0
            Then
                2+2
            End
        End
    "
        ),
        2.0
    );

    assert_eq!(
        exec(
            "
        If 1
        Then
            1+1
            If 0
            Then
                2+2
            Else
                3+3
            End
        End
    "
        ),
        6.0
    );

    assert_eq!(
        exec(
            "
        If 1
        Then
            If 1
            Then
                If 1
                Then
                    1+1
                End
            End
        End
    "
        ),
        2.0
    );

    assert_eq!(
        exec(
            "
        If 1
        Then
            If 0
            Then
            3/69
            Else
                If 1
                Then
                    1+1
                End
            End
        End
    "
        ),
        2.0
    );

    assert_eq!(
        exec(
            "
        If 1: Then
            If 0: Then
                1+1
            Else
                3+3
        
        "
        ),
        6.0
    );

    assert_eq!(
        exec(
            "
        If 1: Then
            If 0: Then
                1+1
            Else
                If 1: Then
                    3*2
                Else
                    2+2
        
        "
        ),
        6.0
    );
}

#[test]
fn test_all_real_vars() {
    for chr in b'A'..b'Z' {
        let var = String::from_utf8([chr].to_vec()).unwrap();
        assert_eq!(exec_str(format!("2->{var}\n{var}\n", var = var)), 2.0)
    }
}

#[test]
fn test_vars_as_expressions() {
    assert_eq!(
        exec(
            "
            2->A
            A+A
        "
        ),
        4.0
    );

    assert_eq!(
        exec(
            "
            2->A
            3->A
            A
        "
        ),
        3.0
    );
}

#[test]
fn test_large_input() {
    assert_eq!(
    exec("(1+2+3+4+5+6+7+8+9+1+2+3+4+5+6+7+8+91+2+3+4+5+6+7+8+91+2+3+4+5+6+7+8+91+2+3+4+5+6+7+8+91+2+3+4+5+6+7+8+91+2+3+4+5+6+7+8+91+2+3+4+5+6+7+8+91+2+3+4+5+6+7+8+91+2+3+4+5+6+7+8+91+2+3+4+5+6+7+8+91+2+3+4+5+6+7+8+91+2+3+4+5+6+7+8+91+2+3+4+5+6+7+8+91+2+3+4+5+6+7+8+91+2+3+4+5+6+7+8+91+2+3+4+5+6+7+8+91+2+3+4+5+6+7+8+91+2+3+4+5+6+7+8+91+2+3+4+5+6+7+8+91+2+3+4+5+6+7+8+91+2+3+4+5+6+7+8+91+2+3+4+5+6+7+8+91+2+3+4+5+6+7+8+91+2+3+4+5+6+7+8+91+2+3+4+5+6+7+8+91+2+3+4+5+6+7+8+91+2+3+4+5+6+7+8+91+2+3+4+5+6+7+8+91+2+3+4+5+6+7+8+91+2+3+4+5+6+7+8+91+2+3+4+5+6+7+8+91+2+3+4+5+6+7+8+91+2+3+4+5+6+7+8+91+2+3+4+5+6+7+8+91+2+3+4+5+6+7+8+91+2+3+4+5+6+7+8+91+2+3+4+5+6+7+8+91+2+3+4+5+6+7+8+91+2+3+4+5+6+7+8+91+2+3+4+5+6+7+8+91+2+3+4+5+6+7+8+91+2+3+4+5+6+7+8+91+2+3+4+5+6+7+8+91+2+3+4+5+6+7+8+91+2+3+4+5+6+7+8+91+2+3+4+5+6+7+8+91+2+3+4+5+6+7+8+91+2+3+4+5+6+7+8+91+2+3+4+5+6+7+8+91+2+3+4+5+6+7+8+91+2+3+4+5+6+7+8+91+2+3+4+5+6+7+8+91+2+3+4+5+6+7+8+91+2+3+4+5+6+7+8+91+2+3+4+5+6+7+8+91+2+3+4+5+6+7+8+91+2+3+4+5+6+7+8+91+2+3+4+5+6+7+8+91+2+3+4+5+6+7+8+91+2+3+4+5+6+7+8+91+2+3+4+5+6+7+8+91+2+3+4+5+6+7+8+91+2+3+4+5+6+7+8+91+2+3+4+5+6+7+8+91+2+3+4+5+6+7+8+91+2+3+4+5+6+7+8+91+2+3+4+5+6+7+8+91+2+3+4+5+6+7+8+91+2+3+4+5+6+7+8+91+2+3+4+5+6+7+8+91+2+3+4+5+6+7+8+91+2+3+4+5+6+7+8+91+2+3+4+5+6+7+8+91+2+3+4+5+6+7+8+91+2+3+4+5+6+7+8+91+2+3+4+5+6+7+8+91+2+3+4+5+6+7+8+91+2+3+4+5+6+7+8+91+2+3+4+5+6+7+8+91+2+3+4+5+6+7+8+91+2+3+4+5+6+7+8+91+2+3+4+5+6+7+8+91+2+3+4+5+6+7+8+91+2+3+4+5+6+7+8+91+2+3+4+5+6+7+8+91+2+3+4+5+6+7+8+91+2+3+4+5+6+7+8+91+2+3+4+5+6+7+8+91+2+3+4+5+6+7+8+91+2+3+4+5+6+7+8+91+2+3+4+5+6+7+8+91+2+3+4+5+6+7+8+91+2+3+4+5+6+7+8+91+2+3+4+5+6+7+8+91+2+3+4+5+6+7+8+91+2+3+4+5+6+7+8+91+2+3+4+5+6+7+8+91+2+3+4+5+6+7+8+91+2+3+4+5+6+7+8+91+2+3+4+5+6+7+8+91+2+3+4+5+6+7+8+91+2+3+4+5+6+7+8+91+2+3+4+5+6+7+8+91+2+3+4+5+6+7+8+91+2+3+4+5+6+7+8+91+2+3+4+5+6+7+8+91+2+3+4+5+6+7+8+91+2+3+4+5+6+7+8+91+2+3+4+5+6+7+8+91+2+3+4+5+6+7+8+91+2+3+4+5+6+7+8+91+2+3+4+5+6+7+8+91+2+3+4+5+6+7+8+91+2+3+4+5+6+7+8+91+2+3+4+5+6+7+8+91+2+3+4+5+6+7+8+91+2+3+4+5+6+7+8+91+2+3+4+5+6+7+8+91+2+3+4+5+6+7+8+91+2+3+4+5+6+7+8+91+2+3+4+5+6+7+8+91+2+3+4+5+6+7+8+91+2+3+4+5+6+7+8+91+2+3+4+5+6+7+8+9)\n")
    , 15588.0);
    assert_eq!(
        exec("((((((((((((((((((((((((((((((((((((((((((((((((((50)49)48)47)46)45)44)43)42)41)40)39)38)37)36)35)34)33)32)31)30)29)28)27)26)25)24)23)22)21)20)19)18)17)16)15)14)13)12)11)10)9)8)7)6)5)4)3)2)1)\n")
        , 30414093201713376000000000000000000000000000000000000000000000000.0)
}

#[test]
fn test_numbers_operators() {
    // assert_eq!(exec("1+2-3*4/5"), 0.6);
    assert_eq!(exec("2(3-4)\n"), -2.0);
    assert_eq!(exec("2(4.5\n"), 9.0);
    assert_eq!(exec("3(4(5(6(7(8(9))))))\n"), 181440.0);
    assert_eq!(exec("3(4(5(6(7(8(9)))))\n"), 181440.0);
    assert_eq!(exec("3(4(5(6(7(8(9\n"), 181440.0);
    assert_eq!(exec("2^(4*4+3\n"), 524288.0);
    assert_eq!(exec("(5)4\n"), 20.0);
    assert_eq!(exec("(((5)4)3)2\n"), 120.0);
}

#[test]
fn executor_test_scientific_notation() {
    assert_eq!(exec("e1\n"), 10.0);
    assert_eq!(exec("e10\n"), 1.0e10);
    assert_eq!(exec("e-10\n"), 1.0e-10);
    assert_eq!(exec("4e5\n"), 400000.0);
}

#[test]
fn test_basic_for_loop() {
    assert_eq!(
        exec(
            "
        3 -> B
        For(A, 0, 5)
        2*B -> B
        End
        B
    "
        ),
        192.0
    );
}

#[test]
fn test_basic_for_loop_inc() {
    assert_eq!(
        exec(
            "
        3 -> B
        For(A, 0, 5, 2)
        2*B -> B
        End
        B
    "
        ),
        24.0
    );
}

#[test]
fn test_basic_for_loop_inc_vars() {
    assert_eq!(
        exec(
            "
        3 -> B
        2 -> P
        5 -> Q
        0 -> R
        For(A, R, Q, P)
        2*B -> B
        End
        B
    "
        ),
        24.0
    );
}

#[test]
fn test_nested_for_loop() {
    assert_eq!(
        exec(
            "
        --1 -> C
        For(A, --1, 0)
        For(B, --1, 0)
        1 -> C
        End
        End
        C
    "
        ),
        1.0
    );
}

#[test]
fn test_super_nested_for_loop() {
    // This takes about a minute on a calculator lol
    assert_eq!(
        exec(
            "
        0 -> Z
        For(A, 0, 5)
        For(B, 0, 5)
        For(C, 0, 5)
        For(D, 0, 5)
        For(E, 0, 5)
        Z+1 -> Z
        End
        End
        End
        End
        End
        Z
    "
        ),
        7776.0
    );
}

#[test]
fn test_naked_for_loop() {
    assert_eq!(
        exec(
            "
        For(A, 0, 5)
        1+1
    "
        ),
        2.0
    );
}

#[test]
fn test_nested_naked_for_loop() {
    assert_eq!(
        exec(
            "
        For(A, 0, 5)
            For(B, 0, 5)
        1+1
    "
        ),
        2.0
    );
}

#[test]
fn test_for_if() {
    assert_eq!(
        exec(
            "
        0 -> Z
        For(A, 0, 5
            If A = 5
                2 -> Z
        End
        Z
    "
        ),
        2.0
    );
}

#[test]
fn test_for_if_then() {
    assert_eq!(
        exec(
            "
        4 -> Z
        For(A, 0, 5
            If A = 5
            Then
                2 -> Z
            End
        End
        Z
    "
        ),
        2.0
    );
}

#[test]
fn test_for_if_then_else() {
    assert_eq!(
        exec(
            "
        0 -> B
        For(A, 0, 5)
            If A < 3
            Then
                B + 2 -> B
            Else
                B * 2 -> B
            End
        End
        B
    "
        ),
        48.0
    );
}

#[test]
fn test_while_basic() {
    assert_eq!(
        exec(
            "
        0 -> B
        While B < 5
            B + 1 -> B
        End
        B
"
        ),
        5.0
    );
}

#[test]
fn test_while_skip_loop() {
    assert_eq!(
        exec(
            "
        0 -> B
        While B > 5
            B + 1 -> B
        End
        B
"
        ),
        0.0
    );
}

#[test]
fn test_while_nested_if() {
    assert_eq!(
        exec(
            "
        0 -> A
        0 -> B
        While B < 5
            If B < 3
            Then
                B + A -> A
            Else
                B * A -> A
            End
            B + 1 -> B
        End
        A
"
        ),
        36.0
    );
}

#[test]
fn test_while_nested_if_skip() {
    assert_eq!(
        exec(
            "
        0 -> A
        0 -> B
        While B > 5
            If B < 3
            Then
                B + A -> A
            Else
                B * A -> A
            End
            B + 1 -> B
        End
        A
"
        ),
        0.0
    );
}

#[test]
fn test_repeat_basic() {
    assert_eq!(
        exec(
            "
    0 -> B
    Repeat B < 5
        B + 1 -> B
    End
    B
"
        ),
        1.0
    );
}

#[test]
fn test_repeat_skip_loop() {
    assert_eq!(
        exec(
            "
    0 -> B
    Repeat B > 5
        B + 1 -> B
    End
    B
"
        ),
        6.0
    );
}

#[test]
fn test_lbl_goto_basic() {
    assert_eq!(
        exec(
            "
    0 -> A
    Lbl A
    A + 1 -> A
    If A < 5
        Goto A
    A
"
        ),
        5.0
    );
}

#[test]
fn test_decrement_skip_basic() {
    assert_eq!(
        exec(
            "
    5 -> A
    DS<(A, 6
    0 -> A
    A
"
        ),
        4.0
    );

    assert_eq!(
        exec(
            "
    7 -> A
    DS<(A, 6)
    0 -> A
    A
"
        ),
        0.0
    );
}

#[test]
fn test_increment_skip_basic() {
    assert_eq!(
        exec(
            "
    7 -> A
    IS<(A, 6
    0 -> A
    A
"
        ),
        8.0
    );

    assert_eq!(
        exec(
            "
    1 -> B
    IS<(B, 2)
    0 -> B
    B
"
        ),
        0.0
    );
}
