use std::cell::Cell;
use tib::context::{Context, Variable};
use tib::error::ExecError;
use tib::expr::{
    BinaryOp, Eval, Expr, ExprList, Literal, Negate, Not, Operator, StoreNode, VarRef,
};
use tib::host::{Arithmetic, Query};
use tib::number::Number;
use tib::value::Value;

/// The arithmetic of the machine's doubles; an unset variable reads as 42.
fn host(query: Query) -> Number {
    let value = match query {
        Query::Decimal(text) => text.parse::<f64>().unwrap(),
        Query::PowerOfTen(exponent) => 10.0_f64.powf(exponent as f64),
        Query::Compute(operation, a, b) => {
            let (a, b) = (f64::from_bits(a.bits), f64::from_bits(b.bits));
            match operation {
                Arithmetic::Add => a + b,
                Arithmetic::Subtract => a - b,
                Arithmetic::Multiply => a * b,
                Arithmetic::Divide => a / b,
                Arithmetic::Power => a.powf(b),
            }
        }
        Query::Random => 42.0,
    };
    Number::from_bits(value.to_bits())
}

fn n(x: f64) -> Number {
    Number::from_bits(x.to_bits())
}

fn num(x: f64) -> Box<Expr> {
    Box::new(Expr::Value(Value::NumValue(n(x))))
}

fn list(items: &[f64]) -> Box<Expr> {
    Box::new(Expr::Value(Value::ValueList(
        items.iter().map(|x| n(*x)).collect(),
    )))
}

fn var(name: char) -> Box<Expr> {
    Box::new(Expr::Var(VarRef { var: Variable::RealVar(name) }))
}

/// The value as doubles: one for a number, all of them for a list.
fn floats(value: &Value) -> Vec<f64> {
    match value {
        Value::NumValue(x) => vec![f64::from_bits(x.bits)],
        Value::ValueList(items) => items.iter().map(|x| f64::from_bits(x.bits)).collect(),
    }
}

fn is_list(value: &Value) -> bool {
    matches!(value, Value::ValueList(_))
}

fn eval(e: Expr) -> Result<Vec<f64>, ExecError> {
    let mut ctx = Context::new();
    e.eval(&mut ctx, &host).map(|v| floats(&v))
}

#[test]
fn arithmetic_on_numbers() {
    assert_eq!(eval(Expr::Binary(BinaryOp::add(num(2.0), num(3.0)))), Ok(vec![5.0]));
    assert_eq!(eval(Expr::Binary(BinaryOp::minus(num(2.0), num(3.0)))), Ok(vec![-1.0]));
    assert_eq!(eval(Expr::Binary(BinaryOp::mult(num(2.0), num(3.0)))), Ok(vec![6.0]));
    assert_eq!(eval(Expr::Binary(BinaryOp::divide(num(3.0), num(2.0)))), Ok(vec![1.5]));
    assert_eq!(eval(Expr::Binary(BinaryOp::power(num(2.0), num(10.0)))), Ok(vec![1024.0]));
}

#[test]
fn logic_and_comparisons_give_one_or_zero() {
    assert_eq!(eval(Expr::Binary(BinaryOp::or(num(0.0), num(7.0)))), Ok(vec![1.0]));
    assert_eq!(eval(Expr::Binary(BinaryOp::xor(num(3.0), num(7.0)))), Ok(vec![0.0]));
    assert_eq!(eval(Expr::Binary(BinaryOp::and(num(3.0), num(0.0)))), Ok(vec![0.0]));
    assert_eq!(eval(Expr::Binary(BinaryOp::equal(num(3.0), num(3.0)))), Ok(vec![1.0]));
    assert_eq!(eval(Expr::Binary(BinaryOp::not_equal(num(3.0), num(3.0)))), Ok(vec![0.0]));
    assert_eq!(eval(Expr::Binary(BinaryOp::greater(num(3.0), num(2.0)))), Ok(vec![1.0]));
    assert_eq!(eval(Expr::Binary(BinaryOp::greater_equal(num(2.0), num(2.0)))), Ok(vec![1.0]));
    assert_eq!(eval(Expr::Binary(BinaryOp::less(num(3.0), num(2.0)))), Ok(vec![0.0]));
    assert_eq!(eval(Expr::Binary(BinaryOp::less_equal(num(3.0), num(2.0)))), Ok(vec![0.0]));
    assert_eq!(eval(Expr::Not(Not { val: num(0.0) })), Ok(vec![1.0]));
    assert_eq!(eval(Expr::Not(Not { val: num(-3.0) })), Ok(vec![0.0]));
    assert_eq!(eval(Expr::Negate(Negate { val: num(2.5) })), Ok(vec![-2.5]));
}

#[test]
fn builders_set_the_operator() {
    assert_eq!(BinaryOp::or(num(1.0), num(2.0)).op, Operator::Or);
    assert_eq!(BinaryOp::xor(num(1.0), num(2.0)).op, Operator::Xor);
    assert_eq!(BinaryOp::and(num(1.0), num(2.0)).op, Operator::And);
    assert_eq!(BinaryOp::equal(num(1.0), num(2.0)).op, Operator::Equal);
    assert_eq!(BinaryOp::not_equal(num(1.0), num(2.0)).op, Operator::NotEqual);
    assert_eq!(BinaryOp::greater(num(1.0), num(2.0)).op, Operator::Greater);
    assert_eq!(BinaryOp::greater_equal(num(1.0), num(2.0)).op, Operator::GreaterEqual);
    assert_eq!(BinaryOp::less(num(1.0), num(2.0)).op, Operator::Less);
    assert_eq!(BinaryOp::less_equal(num(1.0), num(2.0)).op, Operator::LessEqual);
    assert_eq!(BinaryOp::add(num(1.0), num(2.0)).op, Operator::Add);
    assert_eq!(BinaryOp::minus(num(1.0), num(2.0)).op, Operator::Minus);
    assert_eq!(BinaryOp::mult(num(1.0), num(2.0)).op, Operator::Mult);
    assert_eq!(BinaryOp::divide(num(1.0), num(2.0)).op, Operator::Divide);
    assert_eq!(BinaryOp::power(num(1.0), num(2.0)).op, Operator::Power);
}

#[test]
fn literals_are_worked_out_by_the_host() {
    assert_eq!(
        eval(Expr::Literal(Literal::Decimal(String::from("0012.50")))),
        Ok(vec![12.5])
    );
    assert_eq!(eval(Expr::Literal(Literal::PowerOfTen(3))), Ok(vec![1000.0]));
    assert_eq!(eval(Expr::Literal(Literal::PowerOfTen(-2))), Ok(vec![0.01]));
}

#[test]
fn sums_and_products_of_numbers_commute() {
    let values = [0.0, -0.0, 1.5, -7.25, 1e300, 1e-300, 3.0, 0.1, 0.2];
    for a in values {
        for b in values {
            assert_eq!(
                eval(Expr::Binary(BinaryOp::add(num(a), num(b)))),
                eval(Expr::Binary(BinaryOp::add(num(b), num(a))))
            );
            assert_eq!(
                eval(Expr::Binary(BinaryOp::mult(num(a), num(b)))),
                eval(Expr::Binary(BinaryOp::mult(num(b), num(a))))
            );
        }
    }
}

#[test]
fn list_and_number_combine_element_by_element() {
    // the number spreads over the list and stays on its side
    assert_eq!(
        eval(Expr::Binary(BinaryOp::add(list(&[1.0, 2.0, 3.0]), num(10.0)))),
        Ok(vec![11.0, 12.0, 13.0])
    );
    assert_eq!(
        eval(Expr::Binary(BinaryOp::minus(list(&[1.0, 2.0, 3.0]), num(10.0)))),
        Ok(vec![-9.0, -8.0, -7.0])
    );
    assert_eq!(
        eval(Expr::Binary(BinaryOp::minus(num(10.0), list(&[1.0, 2.0, 3.0])))),
        Ok(vec![9.0, 8.0, 7.0])
    );
    assert_eq!(
        eval(Expr::Binary(BinaryOp::divide(num(12.0), list(&[1.0, 2.0, 3.0])))),
        Ok(vec![12.0, 6.0, 4.0])
    );
    assert_eq!(
        eval(Expr::Binary(BinaryOp::less(list(&[1.0, 2.0, 3.0]), num(2.0)))),
        Ok(vec![1.0, 0.0, 0.0])
    );
    // an empty list stays an empty list
    let mut ctx = Context::new();
    let empty = Expr::Binary(BinaryOp::add(list(&[]), num(1.0)))
        .eval(&mut ctx, &host)
        .unwrap();
    assert!(is_list(&empty));
    assert_eq!(floats(&empty), Vec::<f64>::new());
}

#[test]
fn list_plus_number_keeps_the_length() {
    let items = [4.0, -1.0, 0.5, 1e10];
    let sums = eval(Expr::Binary(BinaryOp::add(list(&items), num(0.25)))).unwrap();
    assert_eq!(sums.len(), items.len());
    for i in 0..items.len() {
        assert_eq!(sums[i], items[i] + 0.25);
    }
}

#[test]
fn two_lists_combine_element_by_element() {
    assert_eq!(
        eval(Expr::Binary(BinaryOp::mult(list(&[1.0, 2.0]), list(&[3.0, 4.0])))),
        Ok(vec![3.0, 8.0])
    );
    assert_eq!(
        eval(Expr::Binary(BinaryOp::add(list(&[1.0, 2.0]), list(&[3.0])))),
        Err(ExecError::DimensionMismatch)
    );
}

#[test]
fn division_by_zero() {
    assert_eq!(
        eval(Expr::Binary(BinaryOp::divide(num(1.0), num(0.0)))),
        Err(ExecError::DivideByZero)
    );
    assert_eq!(
        eval(Expr::Binary(BinaryOp::divide(num(1.0), num(-0.0)))),
        Err(ExecError::DivideByZero)
    );
    assert_eq!(
        eval(Expr::Binary(BinaryOp::divide(num(1.0), list(&[1.0, 0.0])))),
        Err(ExecError::DivideByZero)
    );
    assert_eq!(
        eval(Expr::Binary(BinaryOp::divide(list(&[1.0, 0.0]), num(0.0)))),
        Err(ExecError::DivideByZero)
    );
    // a zero on the left is no fault
    assert_eq!(
        eval(Expr::Binary(BinaryOp::divide(num(0.0), num(4.0)))),
        Ok(vec![0.0])
    );
}

#[test]
fn a_list_is_neither_true_nor_false() {
    assert_eq!(eval(Expr::Not(Not { val: list(&[1.0]) })), Err(ExecError::TypeMismatch));
    assert_eq!(eval(Expr::Negate(Negate { val: list(&[1.0]) })), Err(ExecError::TypeMismatch));
    let mut ctx = Context::new();
    assert_eq!(list(&[1.0]).test(&mut ctx, &host), Err(ExecError::TypeMismatch));
    assert_eq!(num(0.0).test(&mut ctx, &host), Ok(false));
    assert_eq!(num(0.5).test(&mut ctx, &host), Ok(true));
    assert_eq!(Value::ValueList(vec![]).to_bool(), Err(ExecError::TypeMismatch));
    assert_eq!(Value::NumValue(n(f64::NAN)).to_bool(), Ok(true));
    assert_eq!(Value::NumValue(n(-0.0)).to_bool(), Ok(false));
}

#[test]
fn truth_values() {
    assert_eq!(floats(&Value::bool(true)), [1.0]);
    assert_eq!(floats(&Value::bool(false)), [0.0]);
    assert!(Value::bool(true).is_bool(true));
    assert!(Value::bool(false).is_bool(false));
    assert!(!Value::bool(false).is_bool(true));
    // only 1.0 matches true
    assert!(Value::NumValue(n(2.0)).is_bool(false));
    assert!(!Value::ValueList(vec![n(1.0)]).is_bool(true));
    assert!(!Value::ValueList(vec![n(1.0)]).is_bool(false));
}

#[test]
fn list_nodes_gather_numbers() {
    let node = ExprList {
        exprs: vec![
            Expr::Value(Value::NumValue(n(1.0))),
            Expr::Binary(BinaryOp::add(num(1.0), num(1.0))),
            Expr::Store(StoreNode { val: num(3.0), var: Variable::RealVar('A') }),
            *var('A'),
        ],
    };
    assert_eq!(eval(Expr::List(node)), Ok(vec![1.0, 2.0, 3.0, 3.0]));
    assert_eq!(eval(Expr::List(ExprList { exprs: vec![] })), Ok(vec![]));
}

#[test]
fn a_list_in_a_list_is_an_error() {
    let node = ExprList { exprs: vec![*num(1.0), *list(&[2.0]), *num(3.0)] };
    assert_eq!(eval(Expr::List(node)), Err(ExecError::NonNumericTypeInList));
    // the first error ends the list, and what came before it has happened
    let mut ctx = Context::new();
    let node = ExprList {
        exprs: vec![
            Expr::Store(StoreNode { val: num(1.0), var: Variable::RealVar('A') }),
            Expr::Binary(BinaryOp::divide(num(1.0), num(0.0))),
            Expr::Store(StoreNode { val: num(2.0), var: Variable::RealVar('A') }),
        ],
    };
    assert_eq!(
        Expr::List(node).eval(&mut ctx, &host).map(|v| floats(&v)),
        Err(ExecError::DivideByZero)
    );
    assert_eq!(floats(&ctx.get(&Variable::RealVar('A'), &host)), [1.0]);
}

#[test]
fn stores_and_reads() {
    let mut ctx = Context::new();
    let store = Expr::Store(StoreNode { val: num(7.0), var: Variable::RealVar('Q') });
    assert_eq!(store.eval(&mut ctx, &host).map(|v| floats(&v)), Ok(vec![7.0]));
    assert_eq!(var('Q').eval(&mut ctx, &host).map(|v| floats(&v)), Ok(vec![7.0]));
    // a store overwrites
    let store = Expr::Store(StoreNode { val: list(&[1.0, 2.0]), var: Variable::RealVar('Q') });
    assert_eq!(store.eval(&mut ctx, &host).map(|v| floats(&v)), Ok(vec![1.0, 2.0]));
    assert_eq!(var('Q').eval(&mut ctx, &host).map(|v| floats(&v)), Ok(vec![1.0, 2.0]));
}

#[test]
fn ans_cannot_be_stored_to() {
    let mut ctx = Context::new();
    let store = Expr::Store(StoreNode { val: num(7.0), var: Variable::Ans });
    assert_eq!(
        store.eval(&mut ctx, &host).map(|v| floats(&v)),
        Err(ExecError::ImmutableVariable)
    );
    assert!(matches!(
        ctx.set(&Variable::Ans, Value::NumValue(n(1.0))),
        Err(ExecError::ImmutableVariable)
    ));
    assert_eq!(floats(&ctx.get(&Variable::Ans, &host)), [0.0]);
    ctx.set_ans(Value::NumValue(n(5.0)));
    assert_eq!(floats(&ctx.get(&Variable::Ans, &host)), [5.0]);
    assert_eq!(
        Expr::Var(VarRef { var: Variable::Ans }).eval(&mut ctx, &host).map(|v| floats(&v)),
        Ok(vec![5.0])
    );
}

#[test]
fn unset_variable_reads_what_the_host_draws() {
    let drawn = Cell::new(0.0);
    let drawing = |query: Query| match query {
        Query::Random => {
            drawn.set(drawn.get() + 1.0);
            n(drawn.get())
        }
        query => host(query),
    };
    let mut ctx = Context::new();
    // each read of an unset variable draws anew, and sets nothing
    assert_eq!(var('A').eval(&mut ctx, &drawing).map(|v| floats(&v)), Ok(vec![1.0]));
    assert_eq!(var('A').eval(&mut ctx, &drawing).map(|v| floats(&v)), Ok(vec![2.0]));
    assert!(ctx.reals.is_empty());
}

#[test]
fn reading_a_set_variable_is_transparent() {
    let drawn = Cell::new(0.0);
    let drawing = |query: Query| match query {
        Query::Random => {
            drawn.set(drawn.get() + 1.0);
            n(drawn.get())
        }
        query => host(query),
    };
    let mut ctx = Context::new();
    ctx.set(&Variable::RealVar('A'), Value::NumValue(n(9.0))).unwrap();
    for _ in 0..3 {
        assert_eq!(var('A').eval(&mut ctx, &drawing).map(|v| floats(&v)), Ok(vec![9.0]));
    }
    assert_eq!(drawn.get(), 0.0);
    assert_eq!(ctx.reals.len(), 1);
}

#[test]
fn operands_are_evaluated_left_to_right() {
    let mut ctx = Context::new();
    // (1 -> A) + A: the read sees the store
    let e = Expr::Binary(BinaryOp::add(
        Box::new(Expr::Store(StoreNode { val: num(1.0), var: Variable::RealVar('A') })),
        var('A'),
    ));
    assert_eq!(e.eval(&mut ctx, &host).map(|v| floats(&v)), Ok(vec![2.0]));
    // an error on the left keeps the right from happening
    let e = Expr::Binary(BinaryOp::add(
        Box::new(Expr::Binary(BinaryOp::divide(num(1.0), num(0.0)))),
        Box::new(Expr::Store(StoreNode { val: num(5.0), var: Variable::RealVar('B') })),
    ));
    assert_eq!(e.eval(&mut ctx, &host).map(|v| floats(&v)), Err(ExecError::DivideByZero));
    assert!(!ctx.reals.contains_key(&('B' as u32)));
}

#[test]
fn operators_on_values() {
    let two = Value::NumValue(n(2.0));
    let three = Value::NumValue(n(3.0));
    let pair = Value::ValueList(vec![n(1.0), n(2.0)]);
    let single = Value::ValueList(vec![n(1.0)]);
    assert_eq!(Operator::Less.decide(&two, &three), Ok(true));
    assert_eq!(Operator::Greater.decide(&two, &three), Ok(false));
    assert_eq!(Operator::LessEqual.decide(&two, &pair), Err(ExecError::TypeMismatch));
    assert_eq!(Operator::LessEqual.decide(&pair, &pair), Err(ExecError::TypeMismatch));
    assert_eq!(Operator::LessEqual.decide(&pair, &single), Err(ExecError::DimensionMismatch));
    assert_eq!(Operator::Power.apply(n(3.0), n(2.0), &host), Ok(n(9.0)));
    assert_eq!(Operator::Divide.apply(n(3.0), n(0.0), &host), Err(ExecError::DivideByZero));
    assert_eq!(
        Operator::Minus.combine(&pair, &two, &host).map(|v| floats(&v)),
        Ok(vec![-1.0, 0.0])
    );
    let node = BinaryOp::minus(num(0.0), num(0.0));
    assert_eq!(
        node.num_list(n(10.0), &vec![n(1.0), n(2.0)], false, &host).map(|v| floats(&v)),
        Ok(vec![9.0, 8.0])
    );
    assert_eq!(
        node.num_list(n(10.0), &vec![n(1.0), n(2.0)], true, &host).map(|v| floats(&v)),
        Ok(vec![-9.0, -8.0])
    );
    assert_eq!(
        node.list_list(&vec![n(5.0)], &vec![n(2.0)], &host).map(|v| floats(&v)),
        Ok(vec![3.0])
    );
    assert_eq!(floats(&pair.duplicate()), [1.0, 2.0]);
}

fn through_trait<E: Eval>(node: &E, ctx: &mut Context) -> Result<Vec<f64>, ExecError> {
    Eval::eval(node, ctx, &host).map(|v| floats(&v))
}

#[test]
fn every_node_can_be_evaluated() {
    let mut ctx = Context::new();
    assert_eq!(through_trait(&Value::NumValue(n(4.0)), &mut ctx), Ok(vec![4.0]));
    assert_eq!(
        through_trait(&StoreNode { val: num(2.0), var: Variable::RealVar('A') }, &mut ctx),
        Ok(vec![2.0])
    );
    assert_eq!(
        through_trait(&VarRef { var: Variable::RealVar('A') }, &mut ctx),
        Ok(vec![2.0])
    );
    assert_eq!(through_trait(&BinaryOp::power(var('A'), num(3.0)), &mut ctx), Ok(vec![8.0]));
    assert_eq!(through_trait(&Not { val: var('A') }, &mut ctx), Ok(vec![0.0]));
    assert_eq!(through_trait(&Negate { val: var('A') }, &mut ctx), Ok(vec![-2.0]));
    assert_eq!(
        through_trait(&ExprList { exprs: vec![*var('A'), *num(1.0)] }, &mut ctx),
        Ok(vec![2.0, 1.0])
    );
    assert_eq!(through_trait(&*var('A'), &mut ctx), Ok(vec![2.0]));
}

#[test]
fn values_are_equal_by_their_numbers() {
    let one = Value::NumValue(n(1.0));
    let zero = Value::NumValue(n(0.0));
    let minus_zero = Value::NumValue(n(-0.0));
    let nan = Value::NumValue(n(f64::NAN));
    let pair = Value::ValueList(vec![n(1.0), n(0.0)]);
    let twin = Value::ValueList(vec![n(1.0), n(-0.0)]);
    let other = Value::ValueList(vec![n(1.0), n(2.0)]);
    let single = Value::ValueList(vec![n(1.0)]);
    assert!(one.equals(&one));
    assert!(!one.equals(&zero));
    assert!(zero.equals(&minus_zero));
    assert!(!nan.equals(&nan));
    assert!(pair.equals(&twin));
    assert!(!pair.equals(&other));
    assert!(!pair.equals(&single));
    assert!(!single.equals(&one));
    assert!(!one.equals(&single));
    assert!(Value::ValueList(vec![]).equals(&Value::ValueList(vec![])));
}

#[test]
fn logical_operators_take_no_list() {
    assert_eq!(
        eval(Expr::Binary(BinaryOp::or(list(&[1.0, 0.0]), num(0.0)))),
        Err(ExecError::TypeMismatch)
    );
    assert_eq!(
        eval(Expr::Binary(BinaryOp::and(num(1.0), list(&[1.0])))),
        Err(ExecError::TypeMismatch)
    );
    assert_eq!(
        eval(Expr::Binary(BinaryOp::xor(list(&[1.0]), list(&[1.0, 2.0])))),
        Err(ExecError::TypeMismatch)
    );
    let pair = Value::ValueList(vec![n(1.0), n(2.0)]);
    let single = Value::ValueList(vec![n(1.0)]);
    assert_eq!(Operator::Or.decide(&pair, &single), Err(ExecError::TypeMismatch));
    assert_eq!(Operator::And.decide(&single, &Value::NumValue(n(1.0))), Err(ExecError::TypeMismatch));
    assert_eq!(
        BinaryOp::or(num(0.0), num(0.0))
            .num_list(n(1.0), &vec![n(1.0)], false, &host)
            .map(|v| floats(&v)),
        Err(ExecError::TypeMismatch)
    );
    // a comparison does
    assert_eq!(
        eval(Expr::Binary(BinaryOp::equal(list(&[1.0, 2.0]), list(&[1.0, 3.0])))),
        Ok(vec![1.0, 0.0])
    );
    assert!(Operator::Xor.is_logical());
    assert!(!Operator::Equal.is_logical());
}
