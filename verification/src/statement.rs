//! Statements: the units that a program is a list of.

use vstd::prelude::*;
use crate::context::Variable;
use crate::expr::Expr;

verus! {

/// The name of a label: one character, or two.
#[derive(Clone, Copy, Debug, PartialEq, Eq, Structural)]
pub struct Label {
    pub first: char,
    pub second: Option<char>,
}

/// Every character is a code point below `0x11_0000`.
pub proof fn lemma_char_range(c: char)
    ensures
        0 <= c as int <= 0x10_FFFF,
{
}

impl Label {
    /// A number that stands for the name: different names have different keys.
    pub open spec fn key(self) -> u64 {
        (self.first as u64 * 0x20_0000 + match self.second {
            Some(c) => c as u64 + 1,
            None => 0,
        }) as u64
    }

    /// The key under which the label cache holds the name.
    pub fn cache_key(&self) -> (k: u64)
        ensures
            k == self.key(),
    {
        let first: char = self.first;
        let high: u64 = (first as u32) as u64;
        let low: u64 = match self.second {
            Some(c) => {
                proof {
                    lemma_char_range(c);
                }
                (c as u32) as u64 + 1
            },
            None => 0,
        };
        proof {
            lemma_char_range(first);
        }
        high * 0x20_0000 + low
    }

    /// Different names have different keys.
    pub proof fn lemma_key_injective(a: Label, b: Label)
        requires
            a.key() == b.key(),
        ensures
            a == b,
    {
        let low_a: int = match a.second {
            Some(c) => c as int + 1,
            None => 0,
        };
        let low_b: int = match b.second {
            Some(c) => c as int + 1,
            None => 0,
        };
        lemma_char_range(a.first);
        lemma_char_range(b.first);
        if let Some(c) = a.second {
            lemma_char_range(c);
        }
        if let Some(c) = b.second {
            lemma_char_range(c);
        }
        assert(0 <= low_a < 0x20_0000 && 0 <= low_b < 0x20_0000);
        assert(a.key() == a.first as int * 0x20_0000 + low_a);
        assert(b.key() == b.first as int * 0x20_0000 + low_b);
        assert(a.first as int == b.first as int && low_a == low_b) by (nonlinear_arith)
            requires
                a.first as int * 0x20_0000 + low_a == b.first as int * 0x20_0000 + low_b,
                0 <= low_a < 0x20_0000,
                0 <= low_b < 0x20_0000,
        ;
    }
}

/// The header of a counting loop: `var` runs from `start` up to `stop` in
/// steps of `inc`.
#[derive(Debug)]
pub struct For {
    pub var: Variable,
    pub start: Expr,
    pub stop: Expr,
    pub inc: Expr,
}

/// A statement that directs the run instead of producing a value.
#[derive(Debug)]
pub enum Command {
    If(Expr),
    Then,
    Else,
    For(For),
    While(Expr),
    Repeat(Expr),
    End,
    Disp(Expr),
    Lbl(Label),
    Goto(Label),
    /// Takes one from the variable and skips the next statement if the
    /// variable is then below the bound.
    DecrementSkip(Variable, Expr),
    /// Adds one to the variable and skips the next statement if the
    /// variable is then above the bound.
    IncrementSkip(Variable, Expr),
}

/// One parsed unit of a program.
#[derive(Debug)]
pub enum Statement {
    Expression(Expr),
    Command(Command),
}

} // verus!
