//! Expressions and what they evaluate to.
//!
//! An expression is a tree of nodes. Evaluating one gives a value or an error
//! and may change the variable store, since a store is an expression too.
//! Because the host computes the arithmetic, and may reply to one query in
//! more than one way, the meaning of an expression is a relation:
//! [`evaluates`] holds of every outcome that an evaluation can have.

use vstd::prelude::*;
use crate::context::{Context, ContextView, Variable};
use crate::error::ExecError;
use crate::host::{answers, reliable, Arithmetic, Query};
use crate::number::{Number, MINUS_ONE_BITS};
use crate::value::{Value, ValueView};

verus! {

pub type EvalResult = Result<Value, ExecError>;

/// A number written out in the source, whose value the host works out.
#[derive(Debug)]
pub enum Literal {
    /// A decimal literal, as its text.
    Decimal(String),
    /// A scientific suffix standing alone: ten to that power.
    PowerOfTen(i32),
}

/// The operators that take two operands.
#[derive(Clone, Copy, Debug, PartialEq, Eq, Structural)]
pub enum Operator {
    Or,
    Xor,
    And,
    Equal,
    NotEqual,
    Greater,
    GreaterEqual,
    Less,
    LessEqual,
    Add,
    Minus,
    Mult,
    Divide,
    Power,
}

/// `val → var`: stores the value of `val` and yields it.
#[derive(Debug)]
pub struct StoreNode {
    pub val: Box<Expr>,
    pub var: Variable,
}

/// A read of a variable.
#[derive(Debug)]
pub struct VarRef {
    pub var: Variable,
}

/// An operator applied to two operands, the left one evaluated first.
#[derive(Debug)]
pub struct BinaryOp {
    pub lhs: Box<Expr>,
    pub rhs: Box<Expr>,
    pub op: Operator,
}

/// Logical negation.
#[derive(Debug)]
pub struct Not {
    pub val: Box<Expr>,
}

/// Arithmetic negation.
#[derive(Debug)]
pub struct Negate {
    pub val: Box<Expr>,
}

/// A list of expressions, each of which has to evaluate to a number.
#[derive(Debug)]
pub struct ExprList {
    pub exprs: Vec<Expr>,
}

/// An expression.
#[derive(Debug)]
pub enum Expr {
    Value(Value),
    Literal(Literal),
    Var(VarRef),
    Store(StoreNode),
    Binary(BinaryOp),
    Not(Not),
    Negate(Negate),
    List(ExprList),
}

/// How an evaluation ended: its result, and the variable store it left.
pub struct Outcome {
    pub result: Result<ValueView, ExecError>,
    pub ctx: ContextView,
}

impl Outcome {
    /// Holds of every outcome. The relations below state the outcome of a part
    /// of an expression as `exists|o| o.arises() && ..`, and a proof that
    /// such a part was evaluated names `o` by this predicate.
    pub open spec fn arises(self) -> bool {
        true
    }

    /// The outcome of an evaluation that returned `r` and left `ctx`.
    pub open spec fn of(r: EvalResult, ctx: ContextView) -> Outcome {
        Outcome { result: seen(r), ctx }
    }
}

/// The mathematical content of an evaluation's result.
pub open spec fn seen(r: EvalResult) -> Result<ValueView, ExecError> {
    match r {
        Ok(v) => Ok(v@),
        Err(e) => Err(e),
    }
}

impl Literal {
    /// The query that asks for the literal's value.
    pub open spec fn query(self) -> Query {
        match self {
            Literal::Decimal(text) => Query::Decimal(text),
            Literal::PowerOfTen(exponent) => Query::PowerOfTen(exponent),
        }
    }

    /// Asks the host for the literal's value.
    pub fn value<H: Fn(Query) -> Number>(&self, host: &H) -> (n: Number)
        requires
            reliable(*host),
        ensures
            answers(*host, self.query(), n),
    {
        match self {
            Literal::Decimal(text) => host(Query::Decimal(text.clone())),
            Literal::PowerOfTen(exponent) => host(Query::PowerOfTen(*exponent)),
        }
    }
}

impl Operator {
    /// The arithmetic operation that the host performs for the operator, if
    /// it is an arithmetic one.
    pub open spec fn arithmetic(self) -> Option<Arithmetic> {
        match self {
            Operator::Add => Some(Arithmetic::Add),
            Operator::Minus => Some(Arithmetic::Subtract),
            Operator::Mult => Some(Arithmetic::Multiply),
            Operator::Divide => Some(Arithmetic::Divide),
            Operator::Power => Some(Arithmetic::Power),
            _ => None,
        }
    }

    /// What a logical or relational operator says of two numbers. An operand
    /// of a logical operator counts as true unless it is zero.
    pub open spec fn holds(self, a: Number, b: Number) -> bool {
        match self {
            Operator::Or => a.truth() || b.truth(),
            Operator::Xor => a.truth() != b.truth(),
            Operator::And => a.truth() && b.truth(),
            Operator::Equal => a.same(b),
            Operator::NotEqual => !a.same(b),
            Operator::Greater => b.below(a),
            Operator::GreaterEqual => b.at_most(a),
            Operator::Less => a.below(b),
            Operator::LessEqual => a.at_most(b),
            _ => false,
        }
    }

    /// Whether the operator is a logical one, which takes its operands for
    /// true or false.
    pub open spec fn logical(self) -> bool {
        self == Operator::Or || self == Operator::Xor || self == Operator::And
    }

    /// Whether the operator fails on two numbers: only a division by zero
    /// does.
    pub open spec fn fails(self, a: Number, b: Number) -> bool {
        self == Operator::Divide && b.zero()
    }

    /// Whether `r` is a result of the operator on the numbers `a` and `b`.
    /// Logical and relational operators give `1.0` or `0.0`; a division by
    /// zero fails; any other arithmetic gives what the host replies.
    pub open spec fn scalar<H: Fn(Query) -> Number>(
        self,
        host: H,
        a: Number,
        b: Number,
        r: Result<Number, ExecError>,
    ) -> bool {
        match self.arithmetic() {
            None => r == Ok::<Number, ExecError>(Number::truth_value(self.holds(a, b))),
            Some(operation) => if self.fails(a, b) {
                r == Err::<Number, ExecError>(ExecError::DivideByZero)
            } else {
                r matches Ok(n) && answers(host, Query::Compute(operation, a, b), n)
            },
        }
    }

    /// Whether `r` is a result of the operator applied to two lists of one
    /// length, element by element. It fails as soon as one element does.
    pub open spec fn pointwise<H: Fn(Query) -> Number>(
        self,
        host: H,
        left: Seq<Number>,
        right: Seq<Number>,
        r: Result<ValueView, ExecError>,
    ) -> bool {
        match r {
            Ok(ValueView::List(s)) => {
                &&& s.len() == left.len()
                &&& forall|i: int|
                    0 <= i < left.len() ==> #[trigger] self.scalar(
                        host,
                        left[i],
                        right[i],
                        Ok(s[i]),
                    )
            },
            Ok(ValueView::Number(_)) => false,
            Err(e) => {
                &&& e == ExecError::DivideByZero
                &&& exists|i: int| 0 <= i < left.len() && #[trigger] self.fails(left[i], right[i])
            },
        }
    }

    /// Whether `r` is a result of the operator on two values. A number and a
    /// list combine element by element, the number taking the same side with
    /// every element. Two lists combine element by element and must have one
    /// length. A logical operator takes no list: a list is neither true nor
    /// false.
    pub open spec fn combines<H: Fn(Query) -> Number>(
        self,
        host: H,
        x: ValueView,
        y: ValueView,
        r: Result<ValueView, ExecError>,
    ) -> bool {
        if self.logical() && (x is List || y is List) {
            r == Err::<ValueView, ExecError>(ExecError::TypeMismatch)
        } else {
            match (x, y) {
                (ValueView::Number(a), ValueView::Number(b)) => match r {
                    Ok(ValueView::Number(n)) => self.scalar(host, a, b, Ok(n)),
                    Ok(ValueView::List(_)) => false,
                    Err(e) => self.scalar(host, a, b, Err(e)),
                },
                (ValueView::Number(a), ValueView::List(l)) => self.pointwise(
                    host,
                    Seq::new(l.len(), |i: int| a),
                    l,
                    r,
                ),
                (ValueView::List(l), ValueView::Number(b)) => self.pointwise(
                    host,
                    l,
                    Seq::new(l.len(), |i: int| b),
                    r,
                ),
                (ValueView::List(l), ValueView::List(m)) => if l.len() != m.len() {
                    r == Err::<ValueView, ExecError>(ExecError::DimensionMismatch)
                } else {
                    self.pointwise(host, l, m, r)
                },
            }
        }
    }

    /// Whether the operator is a logical one.
    pub fn is_logical(self) -> (r: bool)
        ensures
            r == self.logical(),
    {
        match self {
            Operator::Or => true,
            Operator::Xor => true,
            Operator::And => true,
            _ => false,
        }
    }

    /// Applies the operator to two numbers.
    pub fn apply<H: Fn(Query) -> Number>(self, a: Number, b: Number, host: &H) -> (r: Result<
        Number,
        ExecError,
    >)
        requires
            reliable(*host),
        ensures
            self.scalar(*host, a, b, r),
    {
        match self {
            Operator::Or => Ok(Number::from_bool(a.is_true() || b.is_true())),
            Operator::Xor => Ok(Number::from_bool(a.is_true() != b.is_true())),
            Operator::And => Ok(Number::from_bool(a.is_true() && b.is_true())),
            Operator::Equal => Ok(Number::from_bool(a.equals(b))),
            Operator::NotEqual => Ok(Number::from_bool(!a.equals(b))),
            Operator::Greater => Ok(Number::from_bool(b.less(a))),
            Operator::GreaterEqual => Ok(Number::from_bool(b.less_equal(a))),
            Operator::Less => Ok(Number::from_bool(a.less(b))),
            Operator::LessEqual => Ok(Number::from_bool(a.less_equal(b))),
            Operator::Add => Ok(host(Query::Compute(Arithmetic::Add, a, b))),
            Operator::Minus => Ok(host(Query::Compute(Arithmetic::Subtract, a, b))),
            Operator::Mult => Ok(host(Query::Compute(Arithmetic::Multiply, a, b))),
            Operator::Divide => {
                if b.is_zero() {
                    Err(ExecError::DivideByZero)
                } else {
                    Ok(host(Query::Compute(Arithmetic::Divide, a, b)))
                }
            },
            Operator::Power => Ok(host(Query::Compute(Arithmetic::Power, a, b))),
        }
    }
}

/// Whether `out` is an outcome of evaluating `e` in the context `before`.
///
/// Operands are evaluated left to right, each in the context that the one
/// before it left, and the first error ends the evaluation with the context
/// as it then stands.
pub open spec fn evaluates<H: Fn(Query) -> Number>(
    host: H,
    e: Expr,
    before: ContextView,
    out: Outcome,
) -> bool
    decreases e, 0nat,
{
    match e {
        Expr::Value(v) => out == (Outcome { result: Ok(v@), ctx: before }),
        Expr::Literal(literal) => {
            &&& out.ctx == before
            &&& out.result matches Ok(ValueView::Number(n)) && answers(host, literal.query(), n)
        },
        Expr::Var(node) => {
            &&& out.ctx == before
            &&& out.result matches Ok(v) && before.reads(host, node.var, v)
        },
        Expr::Store(node) => exists|inner: Outcome| #[trigger]
            inner.arises() && evaluates(host, *node.val, before, inner) && stores(
                inner,
                node.var,
                out,
            ),
        Expr::Binary(node) => exists|left: Outcome| #[trigger]
            left.arises() && evaluates(host, *node.lhs, before, left) && match left.result {
                Err(_) => out == left,
                Ok(x) => exists|right: Outcome| #[trigger]
                    right.arises() && evaluates(host, *node.rhs, left.ctx, right)
                        && match right.result {
                        Err(_) => out == right,
                        Ok(y) => out.ctx == right.ctx && node.op.combines(host, x, y, out.result),
                    },
            },
        Expr::Not(node) => exists|inner: Outcome| #[trigger]
            inner.arises() && evaluates(host, *node.val, before, inner) && match inner.result {
                Err(_) => out == inner,
                Ok(ValueView::Number(n)) => out == (Outcome {
                    result: Ok(ValueView::of_bool(!n.truth())),
                    ctx: inner.ctx,
                }),
                Ok(ValueView::List(_)) => out == (Outcome {
                    result: Err(ExecError::TypeMismatch),
                    ctx: inner.ctx,
                }),
            },
        Expr::Negate(node) => exists|inner: Outcome| #[trigger]
            inner.arises() && evaluates(host, *node.val, before, inner) && match inner.result {
                Err(_) => out == inner,
                Ok(ValueView::Number(n)) => {
                    &&& out.ctx == inner.ctx
                    &&& out.result matches Ok(ValueView::Number(m)) && answers(
                        host,
                        negation(n),
                        m,
                    )
                },
                Ok(ValueView::List(_)) => out == (Outcome {
                    result: Err(ExecError::TypeMismatch),
                    ctx: inner.ctx,
                }),
            },
        Expr::List(node) => gathers(host, node, node.exprs.len() as nat, before, out),
    }
}

/// The query that negates a number: its product with `-1.0`.
pub open spec fn negation(n: Number) -> Query {
    Query::Compute(Arithmetic::Multiply, Number { bits: MINUS_ONE_BITS }, n)
}

/// Whether `out` is the outcome of a store to `var` whose value was evaluated
/// with the outcome `inner`. An error in the value is the store's error; a
/// store to `Ans` fails and stores nothing.
pub open spec fn stores(inner: Outcome, var: Variable, out: Outcome) -> bool {
    match inner.result {
        Err(_) => out == inner,
        Ok(v) => match var {
            Variable::RealVar(name) => out == (Outcome {
                result: Ok(v),
                ctx: inner.ctx.with_real(name, v),
            }),
            Variable::Ans => out == (Outcome {
                result: Err(ExecError::ImmutableVariable),
                ctx: inner.ctx,
            }),
        },
    }
}

/// Whether `out` is an outcome of evaluating the first `count` elements of a
/// list in the context `before`: the list of their values, or the first
/// error. An element that evaluates to a list is an error.
pub open spec fn gathers<H: Fn(Query) -> Number>(
    host: H,
    list: ExprList,
    count: nat,
    before: ContextView,
    out: Outcome,
) -> bool
    decreases list, count,
{
    if count == 0 || count > list.exprs.len() {
        out == (Outcome { result: Ok(ValueView::List(Seq::empty())), ctx: before })
    } else {
        exists|front: Outcome| #[trigger]
            front.arises() && gathers(host, list, (count - 1) as nat, before, front)
                && match front.result {
                Ok(ValueView::List(values)) => exists|item: Outcome| #[trigger]
                    item.arises() && evaluates(host, list.exprs[count - 1], front.ctx, item)
                        && match item.result {
                        Err(_) => out == item,
                        Ok(ValueView::Number(n)) => out == (Outcome {
                            result: Ok(ValueView::List(values.push(n))),
                            ctx: item.ctx,
                        }),
                        Ok(ValueView::List(_)) => out == (Outcome {
                            result: Err(ExecError::NonNumericTypeInList),
                            ctx: item.ctx,
                        }),
                    },
                _ => out == front,
            }
    }
}

/// Once an element of a list has failed, the failure is the outcome of every
/// longer part of the list.
pub proof fn lemma_failure_persists<H: Fn(Query) -> Number>(
    host: H,
    list: ExprList,
    count: nat,
    more: nat,
    before: ContextView,
    out: Outcome,
)
    requires
        gathers(host, list, count, before, out),
        out.result is Err,
        count <= more <= list.exprs.len(),
    ensures
        gathers(host, list, more, before, out),
    decreases more - count,
{
    if count < more {
        lemma_failure_persists(host, list, count, (more - 1) as nat, before, out);
        assert(out.arises());
    }
}

impl VarRef {
    /// Reads the variable.
    pub fn eval<H: Fn(Query) -> Number>(&self, ctx: &mut Context, host: &H) -> (r: EvalResult)
        requires
            reliable(*host),
        ensures
            evaluates(*host, Expr::Var(*self), old(ctx)@, Outcome::of(r, final(ctx)@)),
    {
        Ok(ctx.get(&self.var, host))
    }
}

impl StoreNode {
    /// Evaluates the value, stores it and yields it.
    pub fn eval<H: Fn(Query) -> Number>(&self, ctx: &mut Context, host: &H) -> (r: EvalResult)
        requires
            reliable(*host),
        ensures
            evaluates(*host, Expr::Store(*self), old(ctx)@, Outcome::of(r, final(ctx)@)),
        decreases self,
    {
        let inner = self.val.eval(ctx, host);
        proof {
            assert(Outcome::of(inner, ctx@).arises());
        }
        match inner {
            Ok(val) => ctx.set(&self.var, val),
            Err(e) => Err(e),
        }
    }
}

impl Not {
    /// `1.0` if the operand is zero and `0.0` if it is any other number.
    pub fn eval<H: Fn(Query) -> Number>(&self, ctx: &mut Context, host: &H) -> (r: EvalResult)
        requires
            reliable(*host),
        ensures
            evaluates(*host, Expr::Not(*self), old(ctx)@, Outcome::of(r, final(ctx)@)),
        decreases self,
    {
        let inner = self.val.eval(ctx, host);
        proof {
            assert(Outcome::of(inner, ctx@).arises());
        }
        match inner {
            Ok(Value::NumValue(n)) => Ok(Value::bool(!n.is_true())),
            Ok(Value::ValueList(_)) => Err(ExecError::TypeMismatch),
            Err(e) => Err(e),
        }
    }
}

impl Negate {
    /// The operand times `-1.0`. A list cannot be negated.
    pub fn eval<H: Fn(Query) -> Number>(&self, ctx: &mut Context, host: &H) -> (r: EvalResult)
        requires
            reliable(*host),
        ensures
            evaluates(*host, Expr::Negate(*self), old(ctx)@, Outcome::of(r, final(ctx)@)),
        decreases self,
    {
        let inner = self.val.eval(ctx, host);
        proof {
            assert(Outcome::of(inner, ctx@).arises());
        }
        match inner {
            Ok(Value::NumValue(n)) => Ok(
                Value::NumValue(
                    host(Query::Compute(Arithmetic::Multiply, Number::minus_one(), n)),
                ),
            ),
            Ok(Value::ValueList(_)) => Err(ExecError::TypeMismatch),
            Err(e) => Err(e),
        }
    }
}

impl ExprList {
    /// Evaluates the elements from left to right into a list of numbers.
    pub fn eval<H: Fn(Query) -> Number>(&self, ctx: &mut Context, host: &H) -> (r: EvalResult)
        requires
            reliable(*host),
        ensures
            evaluates(*host, Expr::List(*self), old(ctx)@, Outcome::of(r, final(ctx)@)),
        decreases self,
    {
        let ghost before = ctx@;
        let mut vals: Vec<Number> = Vec::new();
        let mut i: usize = 0;
        while i < self.exprs.len()
            invariant
                reliable(*host),
                before == old(ctx)@,
                i <= self.exprs.len(),
                gathers(
                    *host,
                    *self,
                    i as nat,
                    before,
                    Outcome { result: Ok(ValueView::List(vals@)), ctx: ctx@ },
                ),
            decreases self.exprs.len() - i,
        {
            let ghost front = Outcome { result: Ok(ValueView::List(vals@)), ctx: ctx@ };
            let item = self.exprs[i].eval(ctx, host);
            proof {
                assert(front.arises());
                assert(Outcome::of(item, ctx@).arises());
            }
            match item {
                Ok(Value::NumValue(n)) => {
                    vals.push(n);
                },
                Ok(Value::ValueList(_)) => {
                    proof {
                        lemma_failure_persists(
                            *host,
                            *self,
                            (i + 1) as nat,
                            self.exprs.len() as nat,
                            before,
                            Outcome { result: Err(ExecError::NonNumericTypeInList), ctx: ctx@ },
                        );
                    }
                    return Err(ExecError::NonNumericTypeInList);
                },
                Err(e) => {
                    proof {
                        lemma_failure_persists(
                            *host,
                            *self,
                            (i + 1) as nat,
                            self.exprs.len() as nat,
                            before,
                            Outcome { result: Err(e), ctx: ctx@ },
                        );
                    }
                    return Err(e);
                },
            }
            i += 1;
        }
        Ok(Value::ValueList(vals))
    }
}

impl Operator {
    /// Applies the operator to a number and each element of a list. The
    /// number is the left operand, or the right one if `swap` is set.
    pub fn num_list<H: Fn(Query) -> Number>(
        self,
        lhs: Number,
        list: &Vec<Number>,
        swap: bool,
        host: &H,
    ) -> (r: EvalResult)
        requires
            reliable(*host),
        ensures
            self.combines(
                *host,
                if swap {
                    ValueView::List(list@)
                } else {
                    ValueView::Number(lhs)
                },
                if swap {
                    ValueView::Number(lhs)
                } else {
                    ValueView::List(list@)
                },
                seen(r),
            ),
    {
        if self.is_logical() {
            return Err(ExecError::TypeMismatch);
        }
        let ghost left = if swap {
            list@
        } else {
            Seq::new(list@.len(), |i: int| lhs)
        };
        let ghost right = if swap {
            Seq::new(list@.len(), |i: int| lhs)
        } else {
            list@
        };
        let mut result: Vec<Number> = Vec::new();
        let mut i: usize = 0;
        while i < list.len()
            invariant
                reliable(*host),
                i <= list.len(),
                result@.len() == i,
                left == if swap {
                    list@
                } else {
                    Seq::new(list@.len(), |i: int| lhs)
                },
                right == if swap {
                    Seq::new(list@.len(), |i: int| lhs)
                } else {
                    list@
                },
                forall|j: int|
                    0 <= j < i ==> #[trigger] self.scalar(*host, left[j], right[j], Ok(result@[j])),
            decreases list.len() - i,
        {
            let rhs = list[i];
            let item = if swap {
                self.apply(rhs, lhs, host)
            } else {
                self.apply(lhs, rhs, host)
            };
            match item {
                Ok(n) => {
                    result.push(n);
                },
                Err(e) => {
                    assert(self.fails(left[i as int], right[i as int]));
                    assert(self.pointwise(*host, left, right, Err(e)));
                    return Err(e);
                },
            }
            i += 1;
        }
        Ok(Value::ValueList(result))
    }

    /// Applies the operator to two lists, element by element.
    pub fn list_list<H: Fn(Query) -> Number>(
        self,
        lhs_list: &Vec<Number>,
        rhs_list: &Vec<Number>,
        host: &H,
    ) -> (r: EvalResult)
        requires
            reliable(*host),
        ensures
            self.combines(
                *host,
                ValueView::List(lhs_list@),
                ValueView::List(rhs_list@),
                seen(r),
            ),
    {
        if self.is_logical() {
            return Err(ExecError::TypeMismatch);
        }
        if lhs_list.len() != rhs_list.len() {
            return Err(ExecError::DimensionMismatch);
        }
        let mut result: Vec<Number> = Vec::new();
        let mut i: usize = 0;
        while i < lhs_list.len()
            invariant
                reliable(*host),
                lhs_list.len() == rhs_list.len(),
                i <= lhs_list.len(),
                result@.len() == i,
                forall|j: int|
                    0 <= j < i ==> #[trigger] self.scalar(
                        *host,
                        lhs_list@[j],
                        rhs_list@[j],
                        Ok(result@[j]),
                    ),
            decreases lhs_list.len() - i,
        {
            match self.apply(lhs_list[i], rhs_list[i], host) {
                Ok(n) => {
                    result.push(n);
                },
                Err(e) => {
                    assert(self.fails(lhs_list@[i as int], rhs_list@[i as int]));
                    return Err(e);
                },
            }
            i += 1;
        }
        Ok(Value::ValueList(result))
    }

    /// Applies the operator to two values.
    pub fn combine<H: Fn(Query) -> Number>(self, x: &Value, y: &Value, host: &H) -> (r: EvalResult)
        requires
            reliable(*host),
        ensures
            self.combines(*host, x@, y@, seen(r)),
    {
        match x {
            Value::NumValue(nl) => match y {
                Value::NumValue(nr) => match self.apply(*nl, *nr, host) {
                    Ok(n) => Ok(Value::NumValue(n)),
                    Err(e) => Err(e),
                },
                Value::ValueList(list) => self.num_list(*nl, list, false, host),
            },
            Value::ValueList(list) => match y {
                Value::NumValue(nr) => self.num_list(*nr, list, true, host),
                Value::ValueList(listr) => self.list_list(list, listr, host),
            },
        }
    }

    /// The truth value of a logical or relational operator applied to two
    /// values: that of its result on two numbers. With a list among the
    /// operands there is none: a logical operator takes no list, and a
    /// comparison gives a list, which has no truth value, if it does not
    /// fail for two lists of different lengths.
    pub open spec fn verdict(self, x: ValueView, y: ValueView) -> Result<bool, ExecError> {
        match (x, y) {
            (ValueView::Number(a), ValueView::Number(b)) => Ok(self.holds(a, b)),
            (ValueView::List(l), ValueView::List(m)) => if !self.logical() && l.len() != m.len() {
                Err(ExecError::DimensionMismatch)
            } else {
                Err(ExecError::TypeMismatch)
            },
            _ => Err(ExecError::TypeMismatch),
        }
    }

    /// The verdict is the truth value of what the operator combines its
    /// operands to.
    pub proof fn lemma_verdict_of_combination<H: Fn(Query) -> Number>(
        self,
        host: H,
        x: ValueView,
        y: ValueView,
        r: Result<ValueView, ExecError>,
    )
        requires
            self.arithmetic() is None,
            self.combines(host, x, y, r),
        ensures
            self.verdict(x, y) == match r {
                Ok(v) => v.truth(),
                Err(e) => Err(e),
            },
    {
        match r {
            Err(e) => {
                match (x, y) {
                    (ValueView::Number(a), ValueView::Number(b)) => {},
                    (ValueView::List(l), ValueView::List(m)) => {},
                    _ => {},
                }
            },
            Ok(v) => {},
        }
    }

    /// Decides a logical or relational operator on two values.
    pub fn decide(self, x: &Value, y: &Value) -> (r: Result<bool, ExecError>)
        requires
            self.arithmetic() is None,
        ensures
            r == self.verdict(x@, y@),
    {
        match x {
            Value::NumValue(a) => match y {
                Value::NumValue(b) => Ok(
                    match self {
                        Operator::Or => a.is_true() || b.is_true(),
                        Operator::Xor => a.is_true() != b.is_true(),
                        Operator::And => a.is_true() && b.is_true(),
                        Operator::Equal => a.equals(*b),
                        Operator::NotEqual => !a.equals(*b),
                        Operator::Greater => b.less(*a),
                        Operator::GreaterEqual => b.less_equal(*a),
                        Operator::Less => a.less(*b),
                        Operator::LessEqual => a.less_equal(*b),
                        _ => false,
                    },
                ),
                Value::ValueList(_) => Err(ExecError::TypeMismatch),
            },
            Value::ValueList(l) => match y {
                Value::NumValue(_) => Err(ExecError::TypeMismatch),
                Value::ValueList(m) => if !self.is_logical() && l.len() != m.len() {
                    Err(ExecError::DimensionMismatch)
                } else {
                    Err(ExecError::TypeMismatch)
                },
            },
        }
    }
}

impl BinaryOp {
    /// Applies the operator to a number and each element of a list. The
    /// number is the left operand, or the right one if `swap` is set.
    pub fn num_list<H: Fn(Query) -> Number>(
        &self,
        lhs: Number,
        list: &Vec<Number>,
        swap: bool,
        host: &H,
    ) -> (r: EvalResult)
        requires
            reliable(*host),
        ensures
            self.op.combines(
                *host,
                if swap {
                    ValueView::List(list@)
                } else {
                    ValueView::Number(lhs)
                },
                if swap {
                    ValueView::Number(lhs)
                } else {
                    ValueView::List(list@)
                },
                seen(r),
            ),
    {
        self.op.num_list(lhs, list, swap, host)
    }

    /// Applies the operator to two lists, element by element.
    pub fn list_list<H: Fn(Query) -> Number>(
        &self,
        lhs_list: &Vec<Number>,
        rhs_list: &Vec<Number>,
        host: &H,
    ) -> (r: EvalResult)
        requires
            reliable(*host),
        ensures
            self.op.combines(
                *host,
                ValueView::List(lhs_list@),
                ValueView::List(rhs_list@),
                seen(r),
            ),
    {
        self.op.list_list(lhs_list, rhs_list, host)
    }

    /// Evaluates the left operand, then the right one, and combines them.
    pub fn eval<H: Fn(Query) -> Number>(&self, ctx: &mut Context, host: &H) -> (r: EvalResult)
        requires
            reliable(*host),
        ensures
            evaluates(*host, Expr::Binary(*self), old(ctx)@, Outcome::of(r, final(ctx)@)),
        decreases self,
    {
        let left = self.lhs.eval(ctx, host);
        proof {
            assert(Outcome::of(left, ctx@).arises());
        }
        let vleft = match left {
            Ok(v) => v,
            Err(e) => {
                return Err(e);
            },
        };
        let right = self.rhs.eval(ctx, host);
        proof {
            assert(Outcome::of(right, ctx@).arises());
        }
        let vright = match right {
            Ok(v) => v,
            Err(e) => {
                return Err(e);
            },
        };
        self.op.combine(&vleft, &vright, host)
    }
}

impl Expr {
    /// Evaluates the expression in `ctx`.
    pub fn eval<H: Fn(Query) -> Number>(&self, ctx: &mut Context, host: &H) -> (r: EvalResult)
        requires
            reliable(*host),
        ensures
            evaluates(*host, *self, old(ctx)@, Outcome::of(r, final(ctx)@)),
        decreases self,
    {
        match self {
            Expr::Value(v) => Ok(v.duplicate()),
            Expr::Literal(literal) => Ok(Value::NumValue(literal.value(host))),
            Expr::Var(node) => node.eval(ctx, host),
            Expr::Store(node) => node.eval(ctx, host),
            Expr::Binary(node) => node.eval(ctx, host),
            Expr::Not(node) => node.eval(ctx, host),
            Expr::Negate(node) => node.eval(ctx, host),
            Expr::List(node) => node.eval(ctx, host),
        }
    }
}

/// Whether `verdict` is an outcome of evaluating `e` as a condition in the
/// context `before`, leaving `after`: the truth value of what `e` evaluates
/// to, or the error on the way.
pub open spec fn judges<H: Fn(Query) -> Number>(
    host: H,
    e: Expr,
    before: ContextView,
    verdict: Result<bool, ExecError>,
    after: ContextView,
) -> bool {
    exists|o: Outcome| #[trigger]
        o.arises() && evaluates(host, e, before, o) && after == o.ctx && verdict == match o.result {
            Ok(v) => v.truth(),
            Err(e) => Err(e),
        }
}

impl Expr {
    /// Evaluates the expression as a condition.
    pub fn test<H: Fn(Query) -> Number>(&self, ctx: &mut Context, host: &H) -> (verdict: Result<
        bool,
        ExecError,
    >)
        requires
            reliable(*host),
        ensures
            judges(*host, *self, old(ctx)@, verdict, final(ctx)@),
    {
        let r = self.eval(ctx, host);
        proof {
            assert(Outcome::of(r, ctx@).arises());
        }
        match r {
            Ok(v) => v.to_bool(),
            Err(e) => Err(e),
        }
    }
}

impl BinaryOp {
    /// `lhs or rhs`
    pub fn or(lhs: Box<Expr>, rhs: Box<Expr>) -> (node: BinaryOp)
        ensures
            node == (BinaryOp { lhs, rhs, op: Operator::Or }),
    {
        BinaryOp { lhs, rhs, op: Operator::Or }
    }

    /// `lhs xor rhs`
    pub fn xor(lhs: Box<Expr>, rhs: Box<Expr>) -> (node: BinaryOp)
        ensures
            node == (BinaryOp { lhs, rhs, op: Operator::Xor }),
    {
        BinaryOp { lhs, rhs, op: Operator::Xor }
    }

    /// `lhs and rhs`
    pub fn and(lhs: Box<Expr>, rhs: Box<Expr>) -> (node: BinaryOp)
        ensures
            node == (BinaryOp { lhs, rhs, op: Operator::And }),
    {
        BinaryOp { lhs, rhs, op: Operator::And }
    }

    /// `lhs = rhs`
    pub fn equal(lhs: Box<Expr>, rhs: Box<Expr>) -> (node: BinaryOp)
        ensures
            node == (BinaryOp { lhs, rhs, op: Operator::Equal }),
    {
        BinaryOp { lhs, rhs, op: Operator::Equal }
    }

    /// `lhs != rhs`
    pub fn not_equal(lhs: Box<Expr>, rhs: Box<Expr>) -> (node: BinaryOp)
        ensures
            node == (BinaryOp { lhs, rhs, op: Operator::NotEqual }),
    {
        BinaryOp { lhs, rhs, op: Operator::NotEqual }
    }

    /// `lhs > rhs`
    pub fn greater(lhs: Box<Expr>, rhs: Box<Expr>) -> (node: BinaryOp)
        ensures
            node == (BinaryOp { lhs, rhs, op: Operator::Greater }),
    {
        BinaryOp { lhs, rhs, op: Operator::Greater }
    }

    /// `lhs >= rhs`
    pub fn greater_equal(lhs: Box<Expr>, rhs: Box<Expr>) -> (node: BinaryOp)
        ensures
            node == (BinaryOp { lhs, rhs, op: Operator::GreaterEqual }),
    {
        BinaryOp { lhs, rhs, op: Operator::GreaterEqual }
    }

    /// `lhs < rhs`
    pub fn less(lhs: Box<Expr>, rhs: Box<Expr>) -> (node: BinaryOp)
        ensures
            node == (BinaryOp { lhs, rhs, op: Operator::Less }),
    {
        BinaryOp { lhs, rhs, op: Operator::Less }
    }

    /// `lhs <= rhs`
    pub fn less_equal(lhs: Box<Expr>, rhs: Box<Expr>) -> (node: BinaryOp)
        ensures
            node == (BinaryOp { lhs, rhs, op: Operator::LessEqual }),
    {
        BinaryOp { lhs, rhs, op: Operator::LessEqual }
    }

    /// `lhs + rhs`
    pub fn add(lhs: Box<Expr>, rhs: Box<Expr>) -> (node: BinaryOp)
        ensures
            node == (BinaryOp { lhs, rhs, op: Operator::Add }),
    {
        BinaryOp { lhs, rhs, op: Operator::Add }
    }

    /// `lhs - rhs`
    pub fn minus(lhs: Box<Expr>, rhs: Box<Expr>) -> (node: BinaryOp)
        ensures
            node == (BinaryOp { lhs, rhs, op: Operator::Minus }),
    {
        BinaryOp { lhs, rhs, op: Operator::Minus }
    }

    /// `lhs * rhs`
    pub fn mult(lhs: Box<Expr>, rhs: Box<Expr>) -> (node: BinaryOp)
        ensures
            node == (BinaryOp { lhs, rhs, op: Operator::Mult }),
    {
        BinaryOp { lhs, rhs, op: Operator::Mult }
    }

    /// `lhs / rhs`
    pub fn divide(lhs: Box<Expr>, rhs: Box<Expr>) -> (node: BinaryOp)
        ensures
            node == (BinaryOp { lhs, rhs, op: Operator::Divide }),
    {
        BinaryOp { lhs, rhs, op: Operator::Divide }
    }

    /// `lhs ^ rhs`
    pub fn power(lhs: Box<Expr>, rhs: Box<Expr>) -> (node: BinaryOp)
        ensures
            node == (BinaryOp { lhs, rhs, op: Operator::Power }),
    {
        BinaryOp { lhs, rhs, op: Operator::Power }
    }
}

/// What can be evaluated: an expression, or a node of one.
pub trait Eval {
    /// The expression that the node is.
    spec fn as_expr(&self) -> Expr;

    /// Evaluates the node in `ctx`.
    fn eval<H: Fn(Query) -> Number>(&self, ctx: &mut Context, host: &H) -> (r: EvalResult)
        requires
            reliable(*host),
        ensures
            evaluates(*host, self.as_expr(), old(ctx)@, Outcome::of(r, final(ctx)@)),
    ;
}

impl Eval for Value {
    open spec fn as_expr(&self) -> Expr {
        Expr::Value(*self)
    }

    fn eval<H: Fn(Query) -> Number>(&self, ctx: &mut Context, host: &H) -> (r: EvalResult) {
        Ok(self.duplicate())
    }
}

impl Eval for VarRef {
    open spec fn as_expr(&self) -> Expr {
        Expr::Var(*self)
    }

    fn eval<H: Fn(Query) -> Number>(&self, ctx: &mut Context, host: &H) -> (r: EvalResult) {
        VarRef::eval(self, ctx, host)
    }
}

impl Eval for StoreNode {
    open spec fn as_expr(&self) -> Expr {
        Expr::Store(*self)
    }

    fn eval<H: Fn(Query) -> Number>(&self, ctx: &mut Context, host: &H) -> (r: EvalResult) {
        StoreNode::eval(self, ctx, host)
    }
}

impl Eval for BinaryOp {
    open spec fn as_expr(&self) -> Expr {
        Expr::Binary(*self)
    }

    fn eval<H: Fn(Query) -> Number>(&self, ctx: &mut Context, host: &H) -> (r: EvalResult) {
        BinaryOp::eval(self, ctx, host)
    }
}

impl Eval for Not {
    open spec fn as_expr(&self) -> Expr {
        Expr::Not(*self)
    }

    fn eval<H: Fn(Query) -> Number>(&self, ctx: &mut Context, host: &H) -> (r: EvalResult) {
        Not::eval(self, ctx, host)
    }
}

impl Eval for Negate {
    open spec fn as_expr(&self) -> Expr {
        Expr::Negate(*self)
    }

    fn eval<H: Fn(Query) -> Number>(&self, ctx: &mut Context, host: &H) -> (r: EvalResult) {
        Negate::eval(self, ctx, host)
    }
}

impl Eval for ExprList {
    open spec fn as_expr(&self) -> Expr {
        Expr::List(*self)
    }

    fn eval<H: Fn(Query) -> Number>(&self, ctx: &mut Context, host: &H) -> (r: EvalResult) {
        ExprList::eval(self, ctx, host)
    }
}

impl Eval for Expr {
    open spec fn as_expr(&self) -> Expr {
        *self
    }

    fn eval<H: Fn(Query) -> Number>(&self, ctx: &mut Context, host: &H) -> (r: EvalResult) {
        Expr::eval(self, ctx, host)
    }
}

} // verus!
