//! The variable store.

use std::collections::HashMap;
use vstd::prelude::*;
use crate::error::ExecError;
use crate::host::{answers, reliable, Query};
use crate::number::Number;
use crate::value::{Value, ValueView};

verus! {

broadcast use vstd::std_specs::hash::group_hash_axioms;

/// A variable of the language.
#[derive(Clone, Copy, Debug, PartialEq, Eq, Structural)]
pub enum Variable {
    /// A real variable, named by a single character.
    RealVar(char),
    /// The value of the last expression statement. It cannot be stored to.
    Ans,
}

/// The values of the variables. `reals` is keyed by the code point of the
/// variable's name.
#[derive(Debug)]
pub struct Context {
    pub ans: Value,
    pub reals: HashMap<u32, Value>,
}

/// The mathematical content of a [`Context`]: `Ans`, and the value of each
/// real variable that has been set, under the code point of its name.
pub struct ContextView {
    pub ans: ValueView,
    pub reals: Map<u32, ValueView>,
}

impl View for Context {
    type V = ContextView;

    open spec fn view(&self) -> ContextView {
        ContextView {
            ans: self.ans@,
            reals: Map::new(|k: u32| self.reals@.contains_key(k), |k: u32| self.reals@[k]@),
        }
    }
}

impl ContextView {
    /// The context in which nothing is set and `Ans` is `0.0`.
    pub open spec fn fresh() -> ContextView {
        ContextView { ans: ValueView::Number(Number { bits: 0 }), reals: Map::empty() }
    }

    /// Whether `value` is what a read of `var` may give. A set variable gives
    /// its value and `Ans` gives the last result. An unset variable gives a
    /// number that the host offers as a random one, which is no NaN and lies
    /// between `-1e20` and `1e20`.
    pub open spec fn reads<H: Fn(Query) -> Number>(self, host: H, var: Variable, value: ValueView) -> bool {
        match var {
            Variable::Ans => value == self.ans,
            Variable::RealVar(name) => if self.reals.contains_key(name as u32) {
                value == self.reals[name as u32]
            } else {
                value matches ValueView::Number(n) && answers(host, Query::Random, n)
                    && n.drawable()
            },
        }
    }

    /// The context after `value` has been stored to the real variable `name`.
    pub open spec fn with_real(self, name: char, value: ValueView) -> ContextView {
        ContextView { ans: self.ans, reals: self.reals.insert(name as u32, value) }
    }

    /// The context after `value` has become `Ans`.
    pub open spec fn with_ans(self, value: ValueView) -> ContextView {
        ContextView { ans: value, reals: self.reals }
    }
}

impl Context {
    /// A context with no variable set and `Ans` at `0.0`.
    pub fn new() -> (ctx: Context)
        ensures
            ctx@ == ContextView::fresh(),
    {
        let ctx = Context { ans: Value::NumValue(Number::from_bits(0)), reals: HashMap::new() };
        assert(ctx@.reals =~= Map::empty());
        ctx
    }

    /// Stores `val` to `var` and gives the stored value back. `Ans` is
    /// read-only: a store to it fails and changes nothing.
    pub fn set(&mut self, var: &Variable, val: Value) -> (r: Result<Value, ExecError>)
        ensures
            match *var {
                Variable::RealVar(name) => {
                    &&& r matches Ok(v) && v@ == val@
                    &&& final(self)@ == old(self)@.with_real(name, val@)
                },
                Variable::Ans => {
                    &&& r == Err::<Value, ExecError>(ExecError::ImmutableVariable)
                    &&& final(self)@ == old(self)@
                },
            },
    {
        match var {
            Variable::RealVar(name) => {
                let copy = val.duplicate();
                self.reals.insert(*name as u32, val);
                assert(self@.reals =~= old(self)@.reals.insert(*name as u32, val@));
                Ok(copy)
            },
            Variable::Ans => Err(ExecError::ImmutableVariable),
        }
    }

    /// Reads `var`. A real variable that was never set reads as a random
    /// number between `-1e20` and `1e20`, which is asked of the host anew at
    /// every such read.
    pub fn get<H: Fn(Query) -> Number>(&self, var: &Variable, host: &H) -> (value: Value)
        requires
            reliable(*host),
        ensures
            self@.reads(*host, *var, value@),
    {
        match var {
            Variable::RealVar(name) => {
                let key: u32 = *name as u32;
                match self.reals.get(&key) {
                    Some(val) => val.duplicate(),
                    None => Value::NumValue(host(Query::Random)),
                }
            },
            Variable::Ans => self.ans.duplicate(),
        }
    }

    /// Makes `value` the new `Ans`.
    pub fn set_ans(&mut self, value: Value)
        ensures
            final(self)@ == old(self)@.with_ans(value@),
    {
        self.ans = value;
        assert(self@.reals =~= old(self)@.reals);
    }
}

} // verus!
