//! Values: a number or a list of numbers.

use vstd::prelude::*;
use crate::error::ExecError;
use crate::number::{Number, ONE_BITS};

verus! {

/// What an expression evaluates to.
#[derive(Debug)]
pub enum Value {
    NumValue(Number),
    ValueList(Vec<Number>),
}

/// The mathematical content of a [`Value`].
pub enum ValueView {
    Number(Number),
    List(Seq<Number>),
}

impl View for Value {
    type V = ValueView;

    open spec fn view(&self) -> ValueView {
        match self {
            Value::NumValue(n) => ValueView::Number(*n),
            Value::ValueList(list) => ValueView::List(list@),
        }
    }
}

impl ValueView {
    /// The truth value of a number; a list has none.
    pub open spec fn truth(self) -> Result<bool, ExecError> {
        match self {
            ValueView::Number(n) => Ok(n.truth()),
            ValueView::List(_) => Err(ExecError::TypeMismatch),
        }
    }

    /// The value a truth value stands for.
    pub open spec fn of_bool(b: bool) -> ValueView {
        ValueView::Number(Number::truth_value(b))
    }

    /// Whether two values are equal: two numbers that are equal as numbers,
    /// or two lists of one length whose elements are equal one by one.
    pub open spec fn same(self, other: ValueView) -> bool {
        match (self, other) {
            (ValueView::Number(a), ValueView::Number(b)) => a.same(b),
            (ValueView::List(l), ValueView::List(m)) => l.len() == m.len() && forall|i: int|
                0 <= i < l.len() ==> (#[trigger] l[i]).same(m[i]),
            _ => false,
        }
    }
}

impl Value {
    /// The number that stands for a truth value: `1.0` or `0.0`.
    pub fn bool(b: bool) -> (v: Value)
        ensures
            v@ == ValueView::of_bool(b),
    {
        Value::NumValue(Number::from_bool(b))
    }

    /// The truth value of a number: true unless it is zero. A list has none.
    pub fn to_bool(&self) -> (r: Result<bool, ExecError>)
        ensures
            r == self@.truth(),
    {
        match self {
            Value::NumValue(n) => Ok(n.is_true()),
            Value::ValueList(_) => Err(ExecError::TypeMismatch),
        }
    }

    /// Whether the value is the number that stands for `b`: `1.0` matches
    /// `true`, every other number matches `false`, and a list matches
    /// neither.
    pub fn is_bool(&self, b: bool) -> (r: bool)
        ensures
            r == match self@ {
                ValueView::Number(n) => n.same(Number { bits: ONE_BITS }) == b,
                ValueView::List(_) => false,
            },
    {
        match self {
            Value::NumValue(n) => n.equals(Number::one()) == b,
            Value::ValueList(_) => false,
        }
    }

    /// Whether the value equals `other`.
    pub fn equals(&self, other: &Value) -> (r: bool)
        ensures
            r == self@.same(other@),
    {
        match self {
            Value::NumValue(a) => match other {
                Value::NumValue(b) => a.equals(*b),
                Value::ValueList(_) => false,
            },
            Value::ValueList(l) => match other {
                Value::NumValue(_) => false,
                Value::ValueList(m) => {
                    if l.len() != m.len() {
                        return false;
                    }
                    let mut i: usize = 0;
                    while i < l.len()
                        invariant
                            i <= l.len(),
                            l.len() == m.len(),
                            self@ == ValueView::List(l@),
                            other@ == ValueView::List(m@),
                            forall|j: int| 0 <= j < i ==> (#[trigger] l@[j]).same(m@[j]),
                        decreases l.len() - i,
                    {
                        if !l[i].equals(m[i]) {
                            assert(!l@[i as int].same(m@[i as int]));
                            return false;
                        }
                        i += 1;
                    }
                    true
                },
            },
        }
    }

    /// A copy of the value.
    pub fn duplicate(&self) -> (v: Value)
        ensures
            v@ == self@,
    {
        match self {
            Value::NumValue(n) => Value::NumValue(*n),
            Value::ValueList(list) => {
                let mut copy: Vec<Number> = Vec::new();
                let mut i: usize = 0;
                while i < list.len()
                    invariant
                        i <= list.len(),
                        copy@ == list@.subrange(0, i as int),
                    decreases list.len() - i,
                {
                    copy.push(list[i]);
                    i += 1;
                    assert(copy@ =~= list@.subrange(0, i as int));
                }
                assert(list@.subrange(0, i as int) =~= list@);
                Value::ValueList(copy)
            },
        }
    }
}

} // verus!
