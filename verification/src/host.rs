//! What the interpreter asks of its host.
//!
//! The interpreter holds numbers as bit patterns and does no floating-point
//! arithmetic. Wherever a program needs a number to be computed, the
//! interpreter puts a [`Query`] to the host, a function value that the caller
//! passes in, and goes on with whatever number comes back. The contracts of
//! this crate therefore speak of the host's own contract: a number `n` is an
//! acceptable reply to `q` when `answers(host, q, n)` holds. Of that
//! contract the interpreter asks only that every query is accepted and that
//! a random number lies between `-1e20` and `1e20` ([`reliable`]).

use vstd::prelude::*;
use crate::number::Number;

verus! {

/// The five arithmetic operations on two numbers.
#[derive(Clone, Copy, Debug, PartialEq, Eq, Structural)]
pub enum Arithmetic {
    Add,
    Subtract,
    Multiply,
    Divide,
    Power,
}

/// A question to the host. The reply is always a number.
pub enum Query {
    /// The value of a decimal literal, given as its text: digits with at most
    /// one point among them.
    Decimal(String),
    /// Ten to the given power.
    PowerOfTen(i32),
    /// The result of an arithmetic operation on two numbers, left operand
    /// first. `Divide` is never asked with a zero divisor.
    Compute(Arithmetic, Number, Number),
    /// A fresh random number, the value of a variable read before it was
    /// set: a number between `-1e20` and `1e20`.
    Random,
}

/// Whether the host accepts every query.
pub open spec fn attentive<H: Fn(Query) -> Number>(host: H) -> bool {
    forall|q: Query| call_requires(host, (q,))
}

/// Whether the host draws its random numbers from where they belong: every
/// reply to [`Query::Random`] is a number between `-1e20` and `1e20`.
pub open spec fn fair<H: Fn(Query) -> Number>(host: H) -> bool {
    forall|n: Number| #[trigger] answers(host, Query::Random, n) ==> n.drawable()
}

/// What the interpreter asks of a host: that it accepts every query, and
/// that it is fair.
pub open spec fn reliable<H: Fn(Query) -> Number>(host: H) -> bool {
    attentive(host) && fair(host)
}

/// Whether `n` is a reply that the host may give to `q`.
pub open spec fn answers<H: Fn(Query) -> Number>(host: H, q: Query, n: Number) -> bool {
    call_ensures(host, (q,), n)
}

} // verus!
