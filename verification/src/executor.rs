//! The execution engine.
//!
//! A program is a flat list of statements, run with a program counter and a
//! stack of open blocks. Which `End` closes which header is never worked out
//! ahead of the run: a jump can enter or leave a block at any point, so the
//! stack alone says which blocks are open, and a block that is not to be run
//! is passed over by a forward scan at the moment that is decided.

use std::collections::HashMap;
use vstd::prelude::*;
use crate::context::{Context, ContextView, Variable};
use crate::error::ExecError;
use crate::expr::{evaluates, judges, Expr, Operator, Outcome};
use crate::host::{reliable, Query};
use crate::laws::lemma_blocks_stay_matched;
use crate::number::{Number, MINUS_ONE_BITS, ONE_BITS};
use crate::statement::{Command, For, Label, Statement};
use crate::value::{Value, ValueView};

verus! {

broadcast use vstd::std_specs::hash::group_hash_axioms;

/// An entry of the block stack: an open block, with the index of its header.
#[derive(Clone, Copy, Debug, PartialEq, Eq, Structural)]
pub enum Block {
    /// An `If` with a `Then`; the flag says whether the true arm is running.
    IfBlock(usize, bool),
    ForBlock(usize),
    WhileBlock(usize),
    RepeatBlock(usize),
}

impl Block {
    /// The index of the block's header.
    pub open spec fn header(self) -> usize {
        match self {
            Block::IfBlock(at, _) => at,
            Block::ForBlock(at) => at,
            Block::WhileBlock(at) => at,
            Block::RepeatBlock(at) => at,
        }
    }

    /// Whether `statement` is a header of the block's kind.
    pub open spec fn opened_by(self, statement: Statement) -> bool {
        match self {
            Block::IfBlock(_, _) => statement is Command && statement->Command_0 is If,
            Block::ForBlock(_) => statement is Command && statement->Command_0 is For,
            Block::WhileBlock(_) => statement is Command && statement->Command_0 is While,
            Block::RepeatBlock(_) => statement is Command && statement->Command_0 is Repeat,
        }
    }

    /// The index of the block's header.
    pub fn header_pc(&self) -> (at: usize)
        ensures
            at == self.header(),
    {
        match self {
            Block::IfBlock(at, _) => *at,
            Block::ForBlock(at) => *at,
            Block::WhileBlock(at) => *at,
            Block::RepeatBlock(at) => *at,
        }
    }
}

/// Whether the statement is a `Then`.
pub open spec fn is_then(statement: Statement) -> bool {
    statement is Command && statement->Command_0 is Then
}

/// Whether the statement is an `Else`.
pub open spec fn is_else(statement: Statement) -> bool {
    statement is Command && statement->Command_0 is Else
}

/// Whether the statement is an `End`.
pub open spec fn is_end(statement: Statement) -> bool {
    statement is Command && statement->Command_0 is End
}

/// Whether the statement at `at` opens a block: a `For`, a `While`, a
/// `Repeat`, or an `If` that is directly followed by a `Then`.
pub open spec fn opens_block(statements: Seq<Statement>, at: int) -> bool {
    0 <= at < statements.len() && match statements[at] {
        Statement::Command(Command::If(_)) => at + 1 < statements.len() && is_then(
            statements[at + 1],
        ),
        Statement::Command(Command::For(_)) => true,
        Statement::Command(Command::While(_)) => true,
        Statement::Command(Command::Repeat(_)) => true,
        _ => false,
    }
}

/// Whether the statement at `at` is an `If`.
pub open spec fn is_if(statements: Seq<Statement>, at: int) -> bool {
    0 <= at < statements.len() && statements[at] is Command && statements[at]->Command_0 is If
}

/// Where a forward scan that looks at the statements from `from` on stops:
/// one position before the `End` that closes the block being passed over,
/// or, if `expect_else` is set and `skip_else` is not, one before that
/// block's `Else` if it comes first.
///
/// A block that opens on the way is passed over whole, by a scan of its own
/// that stops only at its `End`. An `Else` belongs to the innermost block
/// being passed over, which has to be an `If` (`expect_else`), else the scan
/// fails. A scan that runs off the program fails too.
///
/// Behind a block that was passed over the scan goes on two positions
/// behind where the inner scan stopped, which is behind the block's `End`.
/// That this is further on and within the program is tested first, for the
/// sake of the definition; the test never fails (see [`lemma_scan_stops`]).
pub open spec fn scan_target(
    statements: Seq<Statement>,
    from: int,
    expect_else: bool,
    skip_else: bool,
) -> Result<int, ExecError>
    decreases statements.len() - from,
{
    if from < 0 || from >= statements.len() {
        Err(ExecError::UnexpectedEof)
    } else if is_else(statements[from]) {
        if !expect_else {
            Err(ExecError::UnexpectedElse)
        } else if skip_else {
            scan_target(statements, from + 1, expect_else, skip_else)
        } else {
            Ok(from - 1)
        }
    } else if is_end(statements[from]) {
        Ok(from - 1)
    } else if opens_block(statements, from) {
        let nested_if = is_if(statements, from);
        match scan_target(statements, from + 1, nested_if, nested_if) {
            Ok(inner) => if from < inner + 2 <= statements.len() {
                scan_target(statements, inner + 2, expect_else, skip_else)
            } else {
                Err(ExecError::UnexpectedEof)
            },
            Err(e) => Err(e),
        }
    } else {
        scan_target(statements, from + 1, expect_else, skip_else)
    }
}

/// A scan stops at or behind the statement before its start, and directly
/// before an `End`, or before an `Else` if it was told to stop at one.
pub proof fn lemma_scan_stops(
    statements: Seq<Statement>,
    from: int,
    expect_else: bool,
    skip_else: bool,
)
    requires
        0 <= from,
    ensures
        scan_target(statements, from, expect_else, skip_else) matches Ok(target) ==> {
            &&& from - 1 <= target
            &&& target + 1 < statements.len()
            &&& is_end(statements[target + 1]) || (expect_else && !skip_else && is_else(
                statements[target + 1],
            ))
        },
    decreases statements.len() - from,
{
    if from >= statements.len() {
    } else if is_else(statements[from]) {
        if expect_else && skip_else {
            lemma_scan_stops(statements, from + 1, expect_else, skip_else);
        }
    } else if is_end(statements[from]) {
    } else if opens_block(statements, from) {
        let nested_if = is_if(statements, from);
        lemma_scan_stops(statements, from + 1, nested_if, nested_if);
        match scan_target(statements, from + 1, nested_if, nested_if) {
            Ok(inner) => {
                lemma_scan_stops(statements, inner + 2, expect_else, skip_else);
            },
            Err(_) => {},
        }
    } else {
        lemma_scan_stops(statements, from + 1, expect_else, skip_else);
    }
}

/// The index of the first `Lbl` statement at or behind `from` that carries
/// the name `label`.
pub open spec fn first_label(statements: Seq<Statement>, label: Label, from: int) -> Option<int>
    decreases statements.len() - from,
{
    if from < 0 || from >= statements.len() {
        None
    } else if statements[from] == Statement::Command(Command::Lbl(label)) {
        Some(from)
    } else {
        first_label(statements, label, from + 1)
    }
}

/// The index that a `Goto` to `label` jumps to: that of the first statement
/// that defines the label.
pub open spec fn label_target(statements: Seq<Statement>, label: Label) -> Option<int> {
    first_label(statements, label, 0)
}

/// The state of a program.
pub struct ProgramView {
    pub ctx: ContextView,
    pub statements: Seq<Statement>,
    /// The index of the statement to run next.
    pub pc: int,
    /// The open blocks, innermost last.
    pub blockstack: Seq<Block>,
    /// What `Disp` has shown so far.
    pub display: Seq<ValueView>,
}

/// How a statement ended: the result, and the state it left.
pub struct Landing {
    pub result: Result<(), ExecError>,
    pub state: ProgramView,
}

impl Landing {
    /// Holds of every landing; it names one in a proof (see
    /// [`Outcome::arises`]).
    pub open spec fn arises(self) -> bool {
        true
    }
}

impl ProgramView {
    /// The state of a program without statements that has not run yet.
    pub open spec fn fresh() -> ProgramView {
        ProgramView {
            ctx: ContextView::fresh(),
            statements: Seq::empty(),
            pc: 0,
            blockstack: Seq::empty(),
            display: Seq::empty(),
        }
    }

    /// Whether the run has reached the end of the statements.
    pub open spec fn over(self) -> bool {
        self.pc >= self.statements.len()
    }

    /// Every block on the stack names a statement that is a header of the
    /// block's kind.
    pub open spec fn blocks_match(self) -> bool {
        forall|i: int|
            0 <= i < self.blockstack.len() ==> {
                &&& (#[trigger] self.blockstack[i]).header() < self.statements.len()
                &&& self.blockstack[i].opened_by(
                    self.statements[self.blockstack[i].header() as int],
                )
            }
    }

    /// The state with the program counter at `pc`.
    pub open spec fn at(self, pc: int) -> ProgramView {
        ProgramView { pc, ..self }
    }

    /// The state with the variables as in `ctx`.
    pub open spec fn within(self, ctx: ContextView) -> ProgramView {
        ProgramView { ctx, ..self }
    }

    /// The state with `block` put on the stack.
    pub open spec fn entered(self, block: Block) -> ProgramView {
        ProgramView { blockstack: self.blockstack.push(block), ..self }
    }

    /// The state with the innermost block taken off the stack.
    pub open spec fn left(self) -> ProgramView {
        ProgramView { blockstack: self.blockstack.drop_last(), ..self }
    }

    /// The state with `value` added to what has been shown.
    pub open spec fn showing(self, value: ValueView) -> ProgramView {
        ProgramView { display: self.display.push(value), ..self }
    }

    /// The state with `statement` appended to the program.
    pub open spec fn extended(self, statement: Statement) -> ProgramView {
        ProgramView { statements: self.statements.push(statement), ..self }
    }

    /// Where a forward scan from the header at `pc` lands: on the statement
    /// before the one it was looking for. A scan that fails changes nothing.
    pub open spec fn scanned(self, expect_else: bool, skip_else: bool) -> Landing {
        match scan_target(self.statements, self.pc + 1, expect_else, skip_else) {
            Ok(target) => Landing { result: Ok(()), state: self.at(target) },
            Err(e) => Landing { result: Err(e), state: self },
        }
    }

    /// The statement ends well and leaves this state.
    pub open spec fn proceeds(self) -> Landing {
        Landing { result: Ok(()), state: self }
    }

    /// The statement fails and leaves this state.
    pub open spec fn fails(self, e: ExecError) -> Landing {
        Landing { result: Err(e), state: self }
    }

    /// What follows from a verdict on the condition of a `While` or a `For`
    /// at the loop's `End`: back to the header while it holds, else out of
    /// the block.
    pub open spec fn loops(self, verdict: Result<bool, ExecError>, header: int) -> Landing {
        match verdict {
            Ok(true) => self.at(header).proceeds(),
            Ok(false) => self.left().proceeds(),
            Err(e) => self.fails(e),
        }
    }

    /// What follows from a verdict on the condition of a `Repeat` at the
    /// loop's `End`: out of the block once it holds, and back to the header
    /// until then.
    pub open spec fn repeats(self, verdict: Result<bool, ExecError>, header: int) -> Landing {
        match verdict {
            Ok(true) => self.left().proceeds(),
            Ok(false) => self.at(header).proceeds(),
            Err(e) => self.fails(e),
        }
    }

    /// An expression statement: its value becomes `Ans`.
    pub open spec fn runs_expression<H: Fn(Query) -> Number>(
        self,
        host: H,
        e: Expr,
        landing: Landing,
    ) -> bool {
        exists|o: Outcome| #[trigger]
            o.arises() && evaluates(host, e, self.ctx, o) && landing == match o.result {
                Ok(v) => self.within(o.ctx.with_ans(v)).proceeds(),
                Err(e) => self.within(o.ctx).fails(e),
            }
    }

    /// `Disp`: the value is added to what has been shown.
    pub open spec fn runs_disp<H: Fn(Query) -> Number>(
        self,
        host: H,
        e: Expr,
        landing: Landing,
    ) -> bool {
        exists|o: Outcome| #[trigger]
            o.arises() && evaluates(host, e, self.ctx, o) && landing == match o.result {
                Ok(v) => self.within(o.ctx).showing(v).proceeds(),
                Err(e) => self.within(o.ctx).fails(e),
            }
    }

    /// What an `If` does once its condition is known. With a `Then` behind
    /// it, it opens a block: a true condition runs on behind the `Then`, and
    /// a false one scans to the `Else`, behind which the run goes on, or to
    /// the `End`. Without a `Then` it guards one statement, which a false
    /// condition skips.
    pub open spec fn branches(self, truth: bool) -> Landing {
        if self.pc + 1 >= self.statements.len() {
            self.fails(ExecError::UnexpectedEof)
        } else if is_then(self.statements[self.pc + 1]) {
            if truth {
                self.entered(Block::IfBlock(self.pc as usize, true)).at(self.pc + 1).proceeds()
            } else {
                let opened = self.entered(Block::IfBlock(self.pc as usize, false));
                match scan_target(self.statements, self.pc + 1, true, false) {
                    Ok(target) => opened.at(
                        if is_else(self.statements[target + 1]) {
                            target + 1
                        } else {
                            target
                        },
                    ).proceeds(),
                    Err(e) => opened.fails(e),
                }
            }
        } else if truth {
            self.proceeds()
        } else {
            self.at(self.pc + 1).proceeds()
        }
    }

    /// `If`: the condition is evaluated, then see [`Self::branches`].
    pub open spec fn runs_if<H: Fn(Query) -> Number>(
        self,
        host: H,
        condition: Expr,
        landing: Landing,
    ) -> bool {
        exists|verdict: Result<bool, ExecError>, ctx: ContextView| #[trigger]
            judges(host, condition, self.ctx, verdict, ctx) && landing == match verdict {
                Ok(truth) => self.within(ctx).branches(truth),
                Err(e) => self.within(ctx).fails(e),
            }
    }

    /// `Else`: reached at the end of the true arm of an `If` block, it scans
    /// to the block's `End`. Anywhere else it is an error.
    pub open spec fn runs_else(self) -> Landing {
        if self.blockstack.len() > 0 && self.blockstack.last() is IfBlock
            && self.blockstack.last()->IfBlock_1 {
            self.scanned(false, false)
        } else {
            self.fails(ExecError::UnexpectedElse)
        }
    }

    /// `While`: opens a block; a false condition scans to its `End`.
    pub open spec fn runs_while<H: Fn(Query) -> Number>(
        self,
        host: H,
        condition: Expr,
        landing: Landing,
    ) -> bool {
        exists|verdict: Result<bool, ExecError>, ctx: ContextView| #[trigger]
            judges(host, condition, self.ctx, verdict, ctx) && {
                let opened = self.within(ctx).entered(Block::WhileBlock(self.pc as usize));
                landing == match verdict {
                    Ok(true) => opened.proceeds(),
                    Ok(false) => opened.scanned(false, false),
                    Err(e) => opened.fails(e),
                }
            }
    }

    /// An `End` that closes a `While` whose header is at `header` and has
    /// the condition `condition`: the condition is evaluated, and the loop
    /// runs again while it holds.
    pub open spec fn retests<H: Fn(Query) -> Number>(
        self,
        host: H,
        condition: Expr,
        header: int,
        landing: Landing,
    ) -> bool {
        exists|verdict: Result<bool, ExecError>, ctx: ContextView| #[trigger]
            judges(host, condition, self.ctx, verdict, ctx) && landing == self.within(ctx).loops(
                verdict,
                header,
            )
    }

    /// An `End` that closes a `Repeat` whose header is at `header` and has
    /// the condition `condition`: the condition is evaluated, and the loop
    /// runs again until it holds.
    pub open spec fn retries<H: Fn(Query) -> Number>(
        self,
        host: H,
        condition: Expr,
        header: int,
        landing: Landing,
    ) -> bool {
        exists|verdict: Result<bool, ExecError>, ctx: ContextView| #[trigger]
            judges(host, condition, self.ctx, verdict, ctx) && landing == self.within(
                ctx,
            ).repeats(verdict, header)
    }

    /// `End` of a `While` block.
    pub open spec fn ends_while<H: Fn(Query) -> Number>(
        self,
        host: H,
        header: int,
        landing: Landing,
    ) -> bool {
        if 0 <= header < self.statements.len() {
            match self.statements[header] {
                Statement::Command(Command::While(condition)) => self.retests(
                    host,
                    condition,
                    header,
                    landing,
                ),
                _ => landing == self.fails(ExecError::FailedToFindForNode),
            }
        } else {
            landing == self.fails(ExecError::FailedToFindForNode)
        }
    }

    /// `End` of a `Repeat` block.
    pub open spec fn ends_repeat<H: Fn(Query) -> Number>(
        self,
        host: H,
        header: int,
        landing: Landing,
    ) -> bool {
        if 0 <= header < self.statements.len() {
            match self.statements[header] {
                Statement::Command(Command::Repeat(condition)) => self.retries(
                    host,
                    condition,
                    header,
                    landing,
                ),
                _ => landing == self.fails(ExecError::FailedToFindForNode),
            }
        } else {
            landing == self.fails(ExecError::FailedToFindForNode)
        }
    }

    /// `For`: the start value is stored to the variable and the block is
    /// opened; if the variable is already past the limit, the body is
    /// passed over by a scan to the `End`.
    pub open spec fn runs_for<H: Fn(Query) -> Number>(
        self,
        host: H,
        header: For,
        landing: Landing,
    ) -> bool {
        exists|o: Outcome| #[trigger]
            o.arises() && evaluates(host, header.start, self.ctx, o) && match o.result {
                Err(e) => landing == self.within(o.ctx).fails(e),
                Ok(first) => match header.var {
                    Variable::Ans => landing == self.within(o.ctx).fails(
                        ExecError::ImmutableVariable,
                    ),
                    Variable::RealVar(name) => exists|
                        verdict: Result<bool, ExecError>,
                        ctx: ContextView,
                    | #[trigger]
                        continues(
                            host,
                            header.var,
                            header.stop,
                            o.ctx.with_real(name, first),
                            verdict,
                            ctx,
                        ) && {
                            let opened = self.within(ctx).entered(
                                Block::ForBlock(self.pc as usize),
                            );
                            landing == match verdict {
                                Ok(true) => opened.proceeds(),
                                Ok(false) => opened.scanned(false, false),
                                Err(e) => opened.fails(e),
                            }
                        },
                },
            }
    }

    /// `End` of a `For` block whose header is at `header`: the increment is
    /// evaluated and added to the value that the variable had before that;
    /// the sum is stored to the variable, and the loop runs again while the
    /// variable is not past the limit.
    pub open spec fn ends_for<H: Fn(Query) -> Number>(
        self,
        host: H,
        header: int,
        landing: Landing,
    ) -> bool {
        if 0 <= header < self.statements.len() {
            match self.statements[header] {
                Statement::Command(Command::For(node)) => exists|held: ValueView| #[trigger]
                    self.ctx.reads(host, node.var, held) && exists|o: Outcome| #[trigger]
                        o.arises() && evaluates(host, node.inc, self.ctx, o) && match o.result {
                            Err(e) => landing == self.within(o.ctx).fails(e),
                            Ok(inc) => exists|sum: Result<ValueView, ExecError>| #[trigger]
                                Operator::Add.combines(host, inc, held, sum) && match sum {
                                    Err(e) => landing == self.within(o.ctx).fails(e),
                                    Ok(next) => match node.var {
                                        Variable::Ans => landing == self.within(o.ctx).fails(
                                            ExecError::ImmutableVariable,
                                        ),
                                        Variable::RealVar(name) => exists|
                                            verdict: Result<bool, ExecError>,
                                            ctx: ContextView,
                                        | #[trigger]
                                            continues(
                                                host,
                                                node.var,
                                                node.stop,
                                                o.ctx.with_real(name, next),
                                                verdict,
                                                ctx,
                                            ) && landing == self.within(ctx).loops(
                                                verdict,
                                                header,
                                            ),
                                    },
                                },
                        },
                _ => landing == self.fails(ExecError::FailedToFindForNode),
            }
        } else {
            landing == self.fails(ExecError::FailedToFindForNode)
        }
    }

    /// `End`: closes the innermost open block. An `If` block is simply left;
    /// a loop decides whether to run again.
    pub open spec fn runs_end<H: Fn(Query) -> Number>(self, host: H, landing: Landing) -> bool {
        if self.blockstack.len() == 0 {
            landing == self.fails(ExecError::UnexpectedEnd)
        } else {
            match self.blockstack.last() {
                Block::IfBlock(_, _) => landing == self.left().proceeds(),
                Block::ForBlock(header) => self.ends_for(host, header as int, landing),
                Block::WhileBlock(header) => self.ends_while(host, header as int, landing),
                Block::RepeatBlock(header) => self.ends_repeat(host, header as int, landing),
            }
        }
    }

    /// `Goto`: the run goes on behind the first definition of the label. The
    /// block stack stays as it is.
    pub open spec fn runs_goto(self, label: Label) -> Landing {
        match label_target(self.statements, label) {
            Some(at) => self.at(at).proceeds(),
            None => self.fails(ExecError::UnknownLabel),
        }
    }

    /// The state with the program counter moved over the next statement,
    /// if there is one: at the end of the program there is nothing to skip,
    /// and the program counter stays.
    pub open spec fn skipping(self) -> ProgramView {
        if self.pc + 1 < self.statements.len() {
            self.at(self.pc + 1)
        } else {
            self
        }
    }

    /// `DS<(` and `IS>(`: one is taken from the variable, or added to it,
    /// and the next statement is skipped if the variable is then below the
    /// bound, or above it.
    pub open spec fn runs_skip<H: Fn(Query) -> Number>(
        self,
        host: H,
        var: Variable,
        bound: Expr,
        decrement: bool,
        landing: Landing,
    ) -> bool {
        exists|held: ValueView| #[trigger]
            self.ctx.reads(host, var, held) && exists|sum: Result<ValueView, ExecError>| #[trigger]
                Operator::Add.combines(host, held, unit_step(decrement), sum) && match sum {
                    Err(e) => landing == self.fails(e),
                    Ok(next) => match var {
                        Variable::Ans => landing == self.fails(ExecError::ImmutableVariable),
                        Variable::RealVar(name) => exists|o: Outcome| #[trigger]
                            o.arises() && evaluates(
                                host,
                                bound,
                                self.ctx.with_real(name, next),
                                o,
                            ) && landing == match o.result {
                                Err(e) => self.within(o.ctx).fails(e),
                                Ok(limit) => match skip_test(decrement).verdict(next, limit) {
                                    Ok(true) => self.within(o.ctx).skipping().proceeds(),
                                    Ok(false) => self.within(o.ctx).proceeds(),
                                    Err(e) => self.within(o.ctx).fails(e),
                                },
                            },
                    },
                }
    }

    /// Whether `landing` is how the statement at the program counter may
    /// end, before the program counter moves on.
    pub open spec fn effect<H: Fn(Query) -> Number>(self, host: H, landing: Landing) -> bool {
        match self.statements[self.pc] {
            Statement::Expression(e) => self.runs_expression(host, e, landing),
            Statement::Command(command) => match command {
                Command::If(condition) => self.runs_if(host, condition, landing),
                Command::Then => landing == self.fails(ExecError::UnexpectedThen),
                Command::Else => landing == self.runs_else(),
                Command::End => self.runs_end(host, landing),
                Command::Disp(e) => self.runs_disp(host, e, landing),
                Command::For(header) => self.runs_for(host, header, landing),
                Command::While(condition) => self.runs_while(host, condition, landing),
                Command::Repeat(_) => landing == self.entered(
                    Block::RepeatBlock(self.pc as usize),
                ).proceeds(),
                Command::Lbl(_) => landing == self.proceeds(),
                Command::Goto(label) => landing == self.runs_goto(label),
                Command::DecrementSkip(var, bound) => self.runs_skip(
                    host,
                    var,
                    bound,
                    true,
                    landing,
                ),
                Command::IncrementSkip(var, bound) => self.runs_skip(
                    host,
                    var,
                    bound,
                    false,
                    landing,
                ),
            },
        }
    }

    /// Whether `landing` is how one step of the run may end: the statement
    /// at the program counter has its effect, and if it ends well the
    /// program counter moves on by one from where the statement left it.
    /// There is a step only where there is a statement: in a state whose
    /// program counter is an index into the statements, which are no more
    /// than can be counted.
    pub open spec fn performs<H: Fn(Query) -> Number>(self, host: H, landing: Landing) -> bool {
        &&& 0 <= self.pc < self.statements.len() <= usize::MAX
        &&& exists|mid: Landing| #[trigger]
            mid.arises() && self.effect(host, mid) && landing == match mid.result {
                Ok(()) => mid.state.at(mid.state.pc + 1).proceeds(),
                Err(_) => mid,
            }
    }

    /// Whether `count` steps that all end well lead from this state to
    /// `end`.
    pub open spec fn reaches<H: Fn(Query) -> Number>(
        self,
        host: H,
        count: nat,
        end: ProgramView,
    ) -> bool
        decreases count,
    {
        if count == 0 {
            end == self
        } else {
            exists|mid: Landing| #[trigger]
                mid.arises() && self.reaches(host, (count - 1) as nat, mid.state)
                    && mid.state.performs(host, end.proceeds())
        }
    }

    /// Whether `landing` is how a run of at most `limit` steps from this
    /// state may end. The run goes on step by step until the program counter
    /// is past the last statement, a step fails, or `limit` steps are done;
    /// it ends well unless one of its steps failed.
    pub open spec fn runs<H: Fn(Query) -> Number>(
        self,
        host: H,
        limit: nat,
        landing: Landing,
    ) -> bool {
        exists|count: nat, last: ProgramView| #[trigger]
            self.reaches(host, count, last) && count <= limit && match landing.result {
                Ok(()) => landing.state == last && (last.over() || count == limit),
                Err(_) => count < limit && last.performs(host, landing),
            }
    }
}

/// Whether `verdict` is an outcome of the test that a `For` loop makes in
/// the context `before`, leaving `after`: the limit is evaluated, then the
/// variable is read, and the loop goes on if the variable is at most the
/// limit.
pub open spec fn continues<H: Fn(Query) -> Number>(
    host: H,
    var: Variable,
    stop: Expr,
    before: ContextView,
    verdict: Result<bool, ExecError>,
    after: ContextView,
) -> bool {
    exists|o: Outcome| #[trigger]
        o.arises() && evaluates(host, stop, before, o) && after == o.ctx && match o.result {
            Err(e) => verdict == Err::<bool, ExecError>(e),
            Ok(limit) => exists|held: ValueView| #[trigger]
                after.reads(host, var, held) && verdict == Operator::LessEqual.verdict(
                    held,
                    limit,
                ),
        }
}

/// What `DS<(` and `IS>(` add to their variable: `-1.0` and `1.0`.
pub open spec fn unit_step(decrement: bool) -> ValueView {
    ValueView::Number(
        Number {
            bits: if decrement {
                MINUS_ONE_BITS
            } else {
                ONE_BITS
            },
        },
    )
}

/// The comparison of variable and bound on which `DS<(` and `IS>(` skip.
pub open spec fn skip_test(decrement: bool) -> Operator {
    if decrement {
        Operator::Less
    } else {
        Operator::Greater
    }
}

/// A program: its statements, and the state of its run.
#[derive(Debug)]
pub struct Program {
    pub ctx: Context,
    statements: Vec<Statement>,
    pub pc: usize,
    blockstack: Vec<Block>,
    label_cache: HashMap<u64, usize>,
    /// The values that `Disp` has shown and that nobody has taken yet.
    pub display: Vec<Value>,
}

impl View for Program {
    type V = ProgramView;

    closed spec fn view(&self) -> ProgramView {
        ProgramView {
            ctx: self.ctx@,
            statements: self.statements@,
            pc: self.pc as int,
            blockstack: self.blockstack@,
            display: Seq::new(self.display@.len(), |i: int| self.display@[i]@),
        }
    }
}

impl Program {
    /// The invariant of a program: the label cache holds, for every label
    /// that the statements define, the index of its first definition, and
    /// nothing for any other; and there is room to count one past the last
    /// statement.
    pub closed spec fn wf(&self) -> bool {
        &&& self.statements.len() < usize::MAX
        &&& forall|label: Label|
            match label_target(self.statements@, label) {
                Some(at) => self.label_cache@.contains_key(#[trigger] label.key())
                    && self.label_cache@[label.key()] == at,
                None => !self.label_cache@.contains_key(label.key()),
            }
    }

    /// A program without statements.
    pub fn new() -> (program: Program)
        ensures
            program.wf(),
            program@ == ProgramView::fresh(),
    {
        let program = Program {
            ctx: Context::new(),
            statements: Vec::new(),
            pc: 0,
            blockstack: Vec::new(),
            label_cache: HashMap::new(),
            display: Vec::new(),
        };
        assert(program@.display =~= Seq::empty());
        program
    }

    /// Whether the run has reached the end of the statements.
    pub fn over(&self) -> (r: bool)
        ensures
            r == self@.over(),
    {
        self.pc >= self.statements.len()
    }

    /// The index of the statement to run next.
    pub fn pc(&self) -> (pc: usize)
        ensures
            pc == self@.pc,
    {
        self.pc
    }

    /// Moves the program counter.
    pub fn set_pc(&mut self, pc: usize)
        requires
            old(self).wf(),
        ensures
            final(self).wf(),
            final(self)@ == old(self)@.at(pc as int),
    {
        self.pc = pc;
    }

    /// The number of statements.
    pub fn len(&self) -> (n: usize)
        ensures
            n == self@.statements.len(),
    {
        self.statements.len()
    }

    /// The statements.
    pub fn statements(&self) -> (statements: &Vec<Statement>)
        ensures
            statements@ == self@.statements,
    {
        &self.statements
    }

    /// The open blocks, innermost last.
    pub fn blockstack(&self) -> (blocks: &Vec<Block>)
        ensures
            blocks@ == self@.blockstack,
    {
        &self.blockstack
    }

    /// The statement at the program counter.
    pub fn next_statement(&self) -> (r: Result<&Statement, ExecError>)
        ensures
            match r {
                Ok(statement) => !self@.over() && *statement == self@.statements[self@.pc],
                Err(e) => self@.over() && e == ExecError::UnexpectedEof,
            },
    {
        if self.pc >= self.statements.len() {
            Err(ExecError::UnexpectedEof)
        } else {
            Ok(&self.statements[self.pc])
        }
    }

    /// The statement behind the one at the program counter.
    pub fn peek_next(&self) -> (r: Result<&Statement, ExecError>)
        ensures
            match r {
                Ok(statement) => self@.pc + 1 < self@.statements.len() && *statement
                    == self@.statements[self@.pc + 1],
                Err(e) => self@.pc + 1 >= self@.statements.len() && e
                    == ExecError::UnexpectedEof,
            },
    {
        if self.pc >= self.statements.len() || self.pc + 1 >= self.statements.len() {
            Err(ExecError::UnexpectedEof)
        } else {
            Ok(&self.statements[self.pc + 1])
        }
    }

    /// Whether the statement behind the one at the program counter is a
    /// `Then`.
    pub fn next_then(&self) -> (r: Result<bool, ExecError>)
        ensures
            match r {
                Ok(then) => self@.pc + 1 < self@.statements.len() && then == is_then(
                    self@.statements[self@.pc + 1],
                ),
                Err(e) => self@.pc + 1 >= self@.statements.len() && e
                    == ExecError::UnexpectedEof,
            },
    {
        match self.peek_next() {
            Ok(Statement::Command(Command::Then)) => Ok(true),
            Ok(_) => Ok(false),
            Err(e) => Err(e),
        }
    }
}

/// Appending a statement leaves every label that was defined where it was,
/// and defines the label of an appended `Lbl` if it was not defined before.
pub proof fn lemma_label_after_push(
    statements: Seq<Statement>,
    statement: Statement,
    label: Label,
    from: int,
)
    requires
        0 <= from <= statements.len(),
    ensures
        first_label(statements.push(statement), label, from) == match first_label(
            statements,
            label,
            from,
        ) {
            Some(at) => Some(at),
            None => if statement == Statement::Command(Command::Lbl(label)) {
                Some(statements.len() as int)
            } else {
                None
            },
        },
    decreases statements.len() - from,
{
    let longer = statements.push(statement);
    if from < statements.len() {
        assert(longer[from] == statements[from]);
        lemma_label_after_push(statements, statement, label, from + 1);
    } else {
        assert(longer[from] == statement);
        assert(first_label(longer, label, from + 1) is None);
    }
}

/// A label's first definition lies within the statements, at or behind the
/// index the search started from.
pub proof fn lemma_label_in_range(statements: Seq<Statement>, label: Label, from: int)
    requires
        0 <= from,
    ensures
        first_label(statements, label, from) matches Some(at) ==> from <= at < statements.len()
            && statements[at] == Statement::Command(Command::Lbl(label)),
    decreases statements.len() - from,
{
    if from < statements.len() && statements[from] != Statement::Command(Command::Lbl(label)) {
        lemma_label_in_range(statements, label, from + 1);
    }
}

impl Program {
    /// Appends a statement to the program.
    pub fn push(&mut self, statement: Statement)
        requires
            old(self).wf(),
            old(self)@.statements.len() + 1 < usize::MAX,
        ensures
            final(self).wf(),
            final(self)@ == old(self)@.extended(statement),
    {
        let at = self.statements.len();
        if let Statement::Command(Command::Lbl(label)) = &statement {
            let key = label.cache_key();
            if !self.label_cache.contains_key(&key) {
                self.label_cache.insert(key, at);
            }
        }
        proof {
            let before = old(self).statements@;
            assert forall|label: Label|
                match label_target(before.push(statement), label) {
                    Some(at) => self.label_cache@.contains_key(#[trigger] label.key())
                        && self.label_cache@[label.key()] == at,
                    None => !self.label_cache@.contains_key(label.key()),
                } by {
                lemma_label_after_push(before, statement, label, 0);
                if let Statement::Command(Command::Lbl(pushed)) = statement {
                    if pushed.key() == label.key() {
                        Label::lemma_key_injective(pushed, label);
                    }
                    assert(match label_target(before, pushed) {
                        Some(at) => old(self).label_cache@.contains_key(pushed.key()),
                        None => !old(self).label_cache@.contains_key(pushed.key()),
                    });
                }
                assert(match label_target(before, label) {
                    Some(at) => old(self).label_cache@.contains_key(label.key())
                        && old(self).label_cache@[label.key()] == at,
                    None => !old(self).label_cache@.contains_key(label.key()),
                });
            }
        }
        self.statements.push(statement);
    }

    /// Moves the program counter to the next statement.
    fn advance(&mut self)
        requires
            old(self).wf(),
            old(self)@.pc <= old(self)@.statements.len(),
        ensures
            final(self).wf(),
            final(self)@ == old(self)@.at(old(self)@.pc + 1),
    {
        self.pc += 1;
    }

    /// The block that the statement at `at` opens, if it opens one.
    fn opening(&self, at: usize) -> (block: Option<Block>)
        ensures
            block is Some == opens_block(self@.statements, at as int),
            block matches Some(b) ==> b.header() == at && b.opened_by(self@.statements[at as int])
                && (b is IfBlock == is_if(self@.statements, at as int)) && (b matches Block::IfBlock(
                _,
                taken,
            ) ==> !taken),
    {
        if at >= self.statements.len() {
            return None;
        }
        match &self.statements[at] {
            Statement::Command(Command::If(_)) => {
                if at + 1 < self.statements.len() {
                    match &self.statements[at + 1] {
                        Statement::Command(Command::Then) => Some(Block::IfBlock(at, false)),
                        _ => None,
                    }
                } else {
                    None
                }
            },
            Statement::Command(Command::For(_)) => Some(Block::ForBlock(at)),
            Statement::Command(Command::While(_)) => Some(Block::WhileBlock(at)),
            Statement::Command(Command::Repeat(_)) => Some(Block::RepeatBlock(at)),
            _ => None,
        }
    }

    /// Whether the statement at the program counter is an `Else`.
    fn at_else(&self) -> (r: bool)
        requires
            !self@.over(),
        ensures
            r == is_else(self@.statements[self@.pc]),
    {
        match &self.statements[self.pc] {
            Statement::Command(Command::Else) => true,
            _ => false,
        }
    }

    /// Whether the statement at the program counter is an `End`.
    fn at_end(&self) -> (r: bool)
        requires
            !self@.over(),
        ensures
            r == is_end(self@.statements[self@.pc]),
    {
        match &self.statements[self.pc] {
            Statement::Command(Command::End) => true,
            _ => false,
        }
    }

    /// Passes over the block whose header is at the program counter, as part
    /// of a scan: puts `block` on the stack, scans to the block's `End`,
    /// steps onto it and takes the block off again.
    fn enter_block(&mut self, expect_else: bool, skip_else: bool, block: Block) -> (r: Result<
        (),
        ExecError,
    >)
        requires
            old(self).wf(),
            !old(self)@.over(),
        ensures
            final(self).wf(),
            match scan_target(old(self)@.statements, old(self)@.pc + 1, expect_else, skip_else) {
                Ok(target) => r is Ok && final(self)@ == old(self)@.at(target + 1),
                Err(e) => r == Err::<(), ExecError>(e) && final(self)@ == old(self)@,
            },
        decreases old(self)@.statements.len() - old(self)@.pc, 1int,
    {
        let inserted_loc = self.pc;
        self.blockstack.push(block);

        match self.scan_and_advance(expect_else, skip_else) {
            Ok(()) => {},
            Err(e) => {
                self.blockstack.pop();
                assert(self.blockstack@ =~= old(self).blockstack@);
                return Err(e);
            },
        }
        proof {
            lemma_scan_stops(old(self)@.statements, old(self)@.pc + 1, expect_else, skip_else);
        }
        // the scan stopped before the `End`; step onto it
        self.advance();

        // make sure that the block taken off is the one that was put on
        let removed = match self.blockstack.pop() {
            Some(removed) => removed,
            None => {
                return Err(ExecError::SyntaxError);
            },
        };
        assert(self.blockstack@ =~= old(self).blockstack@);
        if removed.header_pc() != block.header_pc() {
            Err(ExecError::SyntaxError)
        } else {
            Ok(())
        }
    }

    /// Scans forward from the header at the program counter for the `End`
    /// of its block, or for its `Else` if `expect_else` is set and
    /// `skip_else` is not, and leaves the program counter one before what it
    /// found. Blocks that open on the way are passed over whole. A scan that
    /// fails leaves the program as it was.
    fn scan_and_advance(&mut self, expect_else: bool, skip_else: bool) -> (r: Result<
        (),
        ExecError,
    >)
        requires
            old(self).wf(),
            !old(self)@.over(),
        ensures
            final(self).wf(),
            (Landing { result: r, state: final(self)@ }) == old(self)@.scanned(
                expect_else,
                skip_else,
            ),
        decreases old(self)@.statements.len() - old(self)@.pc, 0int,
    {
        let start = self.pc;
        self.advance();
        loop
            invariant
                self.wf(),
                start == old(self)@.pc,
                start < self@.pc <= self@.statements.len(),
                self@ == old(self)@.at(self@.pc),
                scan_target(self@.statements, self@.pc, expect_else, skip_else) == scan_target(
                    self@.statements,
                    start + 1,
                    expect_else,
                    skip_else,
                ),
            decreases self@.statements.len() - self@.pc,
        {
            if self.over() {
                self.pc = start;
                return Err(ExecError::UnexpectedEof);
            }
            if self.at_else() {
                if !expect_else {
                    self.pc = start;
                    return Err(ExecError::UnexpectedElse);
                }
                if !skip_else {
                    // always leave the program counter one before what was found
                    self.pc -= 1;
                    return Ok(());
                }
                // an `Else` that is of no interest is passed over
            } else if self.at_end() {
                self.pc -= 1;
                return Ok(());
            } else {
                match self.opening(self.pc) {
                    Some(block) => {
                        let nested_if = matches!(block, Block::IfBlock(_, _));
                        proof {
                            lemma_scan_stops(self@.statements, self@.pc + 1, nested_if, nested_if);
                        }
                        match self.enter_block(nested_if, nested_if, block) {
                            Ok(()) => {},
                            Err(e) => {
                                self.pc = start;
                                return Err(e);
                            },
                        }
                    },
                    None => {},
                }
            }
            self.advance();
        }
    }
}

impl Program {
    /// Whether a `For` loop goes on: evaluates the limit, then reads the
    /// variable, and says whether the variable is at most the limit.
    fn for_should_execute_loop<H: Fn(Query) -> Number>(
        cmd: &For,
        ctx: &mut Context,
        host: &H,
    ) -> (verdict: Result<bool, ExecError>)
        requires
            reliable(*host),
        ensures
            continues(*host, cmd.var, cmd.stop, old(ctx)@, verdict, final(ctx)@),
    {
        let stop = cmd.stop.eval(ctx, host);
        proof {
            assert(Outcome::of(stop, ctx@).arises());
        }
        match stop {
            Ok(limit) => {
                let held = ctx.get(&cmd.var, host);
                Operator::LessEqual.decide(&held, &limit)
            },
            Err(e) => Err(e),
        }
    }

    /// Runs the expression statement at the program counter.
    fn exec_expression<H: Fn(Query) -> Number>(&mut self, host: &H) -> (r: Result<(), ExecError>)
        requires
            old(self).wf(),
            reliable(*host),
            !old(self)@.over(),
            old(self)@.statements[old(self)@.pc] is Expression,
        ensures
            final(self).wf(),
            old(self)@.effect(*host, Landing { result: r, state: final(self)@ }),
            final(self)@.pc == old(self)@.pc,
    {
        let value = match &self.statements[self.pc] {
            Statement::Expression(expr) => expr.eval(&mut self.ctx, host),
            Statement::Command(_) => Err(ExecError::FailedToFindForNode),
        };
        proof {
            assert(Outcome::of(value, self.ctx@).arises());
        }
        match value {
            Ok(v) => {
                self.ctx.set_ans(v);
                Ok(())
            },
            Err(e) => Err(e),
        }
    }

    /// Runs the `Disp` at the program counter.
    fn exec_disp<H: Fn(Query) -> Number>(&mut self, host: &H) -> (r: Result<(), ExecError>)
        requires
            old(self).wf(),
            reliable(*host),
            !old(self)@.over(),
            old(self)@.statements[old(self)@.pc] matches Statement::Command(Command::Disp(_)),
        ensures
            final(self).wf(),
            old(self)@.effect(*host, Landing { result: r, state: final(self)@ }),
            final(self)@.pc == old(self)@.pc,
    {
        let value = match &self.statements[self.pc] {
            Statement::Command(Command::Disp(expr)) => expr.eval(&mut self.ctx, host),
            _ => Err(ExecError::FailedToFindForNode),
        };
        proof {
            assert(Outcome::of(value, self.ctx@).arises());
        }
        match value {
            Ok(v) => {
                self.display.push(v);
                assert(self@.display =~= old(self)@.display.push(v@));
                Ok(())
            },
            Err(e) => Err(e),
        }
    }

    /// Runs the `If` at the program counter.
    fn exec_if<H: Fn(Query) -> Number>(&mut self, host: &H) -> (r: Result<(), ExecError>)
        requires
            old(self).wf(),
            reliable(*host),
            !old(self)@.over(),
            old(self)@.statements[old(self)@.pc] matches Statement::Command(Command::If(_)),
        ensures
            final(self).wf(),
            old(self)@.effect(*host, Landing { result: r, state: final(self)@ }),
            0 <= final(self)@.pc < final(self)@.statements.len(),
    {
        let verdict = match &self.statements[self.pc] {
            Statement::Command(Command::If(condition)) => condition.test(&mut self.ctx, host),
            _ => Err(ExecError::FailedToFindForNode),
        };
        let truth = match verdict {
            Ok(truth) => truth,
            Err(e) => {
                return Err(e);
            },
        };
        let then = match self.next_then() {
            Ok(then) => then,
            Err(e) => {
                return Err(e);
            },
        };
        if truth {
            if then {
                self.blockstack.push(Block::IfBlock(self.pc, true));
                // stand on the `Then`, so that the run goes on behind it
                self.advance();
            }
        } else {
            if then {
                // go to the `Else` of this `If`, or to its `End`
                self.blockstack.push(Block::IfBlock(self.pc, false));
                proof {
                    lemma_scan_stops(self@.statements, self@.pc + 1, true, false);
                }
                match self.scan_and_advance(true, false) {
                    Ok(()) => {},
                    Err(e) => {
                        return Err(e);
                    },
                }
                // an `Else` that the scan found is not to be run: running an
                // `Else` skips to the `End`
                let on_else = match self.peek_next() {
                    Ok(Statement::Command(Command::Else)) => true,
                    _ => false,
                };
                if on_else {
                    self.advance();
                }
            } else {
                // skip the one statement that the `If` guards
                self.advance();
            }
        }
        Ok(())
    }

    /// A `Then` is never run: the `If` before it steps over it.
    fn exec_then(&mut self) -> (r: Result<(), ExecError>)
        ensures
            r == Err::<(), ExecError>(ExecError::UnexpectedThen),
            *final(self) == *old(self),
    {
        Err(ExecError::UnexpectedThen)
    }

    /// Runs the `Else` at the program counter.
    fn exec_else(&mut self) -> (r: Result<(), ExecError>)
        requires
            old(self).wf(),
            !old(self)@.over(),
        ensures
            final(self).wf(),
            (Landing { result: r, state: final(self)@ }) == old(self)@.runs_else(),
            0 <= final(self)@.pc < final(self)@.statements.len(),
    {
        if self.blockstack.len() == 0 {
            return Err(ExecError::UnexpectedElse);
        }
        match self.blockstack[self.blockstack.len() - 1] {
            Block::IfBlock(_, took_true) => {
                if !took_true {
                    Err(ExecError::UnexpectedElse)
                } else {
                    // the true arm is done: go to the `End`
                    proof {
                        lemma_scan_stops(self@.statements, self@.pc + 1, false, false);
                    }
                    self.scan_and_advance(false, false)
                }
            },
            _ => Err(ExecError::UnexpectedElse),
        }
    }

    /// Runs an `End` that closes the `Repeat` block whose header is at `pc`.
    fn exec_repeat_end<H: Fn(Query) -> Number>(&mut self, pc: usize, host: &H) -> (r: Result<
        (),
        ExecError,
    >)
        requires
            old(self).wf(),
            reliable(*host),
            !old(self)@.over(),
            old(self)@.blockstack.len() > 0,
            old(self)@.blockstack.last() == Block::RepeatBlock(pc),
        ensures
            final(self).wf(),
            old(self)@.ends_repeat(*host, pc as int, Landing { result: r, state: final(self)@ }),
            0 <= final(self)@.pc < final(self)@.statements.len(),
    {
        if pc >= self.statements.len() {
            return Err(ExecError::FailedToFindForNode);
        }
        let verdict = match &self.statements[pc] {
            Statement::Command(Command::Repeat(expr)) => expr.test(&mut self.ctx, host),
            _ => {
                return Err(ExecError::FailedToFindForNode);
            },
        };
        // the loop is left once the condition holds
        let again = match verdict {
            Ok(holds) => Ok(!holds),
            Err(e) => Err(e),
        };
        self.loop_or_leave(again, pc)
    }

    /// Runs an `End` that closes the `While` block whose header is at `pc`.
    fn exec_while_end<H: Fn(Query) -> Number>(&mut self, pc: usize, host: &H) -> (r: Result<
        (),
        ExecError,
    >)
        requires
            old(self).wf(),
            reliable(*host),
            !old(self)@.over(),
            old(self)@.blockstack.len() > 0,
            old(self)@.blockstack.last() == Block::WhileBlock(pc),
        ensures
            final(self).wf(),
            old(self)@.ends_while(*host, pc as int, Landing { result: r, state: final(self)@ }),
            0 <= final(self)@.pc < final(self)@.statements.len(),
    {
        if pc >= self.statements.len() {
            return Err(ExecError::FailedToFindForNode);
        }
        let verdict = match &self.statements[pc] {
            Statement::Command(Command::While(expr)) => expr.test(&mut self.ctx, host),
            _ => {
                return Err(ExecError::FailedToFindForNode);
            },
        };
        self.loop_or_leave(verdict, pc)
    }

    /// Acts on the verdict that a loop reached at its `End`, which says
    /// whether the body is to run again: goes back to the header at `pc`, or
    /// takes the loop's block off the stack.
    fn loop_or_leave(&mut self, verdict: Result<bool, ExecError>, pc: usize) -> (r: Result<
        (),
        ExecError,
    >)
        requires
            old(self).wf(),
            !old(self)@.over(),
            pc < old(self)@.statements.len(),
            old(self)@.blockstack.len() > 0,
            old(self)@.blockstack.last().header() == pc,
        ensures
            final(self).wf(),
            (Landing { result: r, state: final(self)@ }) == old(self)@.loops(verdict, pc as int),
            0 <= final(self)@.pc < final(self)@.statements.len(),
    {
        match verdict {
            Ok(true) => {
                // run the body again: the run goes on behind the header
                self.pc = pc;
                Ok(())
            },
            Ok(false) => {
                // the loop is done: its block leaves the stack
                match self.blockstack.pop() {
                    Some(block) => {
                        if block.header_pc() != pc {
                            return Err(ExecError::SyntaxError);
                        }
                    },
                    None => {
                        return Err(ExecError::SyntaxError);
                    },
                }
                Ok(())
            },
            Err(e) => Err(e),
        }
    }

    /// Runs the `End` at the program counter.
    fn exec_end<H: Fn(Query) -> Number>(&mut self, host: &H) -> (r: Result<(), ExecError>)
        requires
            old(self).wf(),
            reliable(*host),
            !old(self)@.over(),
        ensures
            final(self).wf(),
            old(self)@.runs_end(*host, Landing { result: r, state: final(self)@ }),
            0 <= final(self)@.pc < final(self)@.statements.len(),
    {
        if self.blockstack.len() == 0 {
            return Err(ExecError::UnexpectedEnd);
        }
        let top = self.blockstack[self.blockstack.len() - 1];
        match top {
            Block::IfBlock(_, _) => {
                self.blockstack.pop();
                Ok(())
            },
            Block::ForBlock(pc) => self.exec_for_end(pc, host),
            Block::RepeatBlock(pc) => self.exec_repeat_end(pc, host),
            Block::WhileBlock(pc) => self.exec_while_end(pc, host),
        }
    }

    /// Runs the `While` at the program counter.
    fn exec_while<H: Fn(Query) -> Number>(&mut self, host: &H) -> (r: Result<(), ExecError>)
        requires
            old(self).wf(),
            reliable(*host),
            !old(self)@.over(),
            old(self)@.statements[old(self)@.pc] matches Statement::Command(Command::While(_)),
        ensures
            final(self).wf(),
            old(self)@.effect(*host, Landing { result: r, state: final(self)@ }),
            0 <= final(self)@.pc < final(self)@.statements.len(),
    {
        self.blockstack.push(Block::WhileBlock(self.pc));
        let verdict = match &self.statements[self.pc] {
            Statement::Command(Command::While(condition)) => condition.test(&mut self.ctx, host),
            _ => Err(ExecError::FailedToFindForNode),
        };
        match verdict {
            Ok(true) => Ok(()),
            Ok(false) => {
                // the condition does not hold: go to the `End`
                proof {
                    lemma_scan_stops(self@.statements, self@.pc + 1, false, false);
                }
                self.scan_and_advance(false, false)
            },
            Err(e) => Err(e),
        }
    }

    /// Runs the `Repeat` at the program counter: the body is run once
    /// before the condition is looked at, and then again until the
    /// condition holds, so there is only the block to open.
    fn exec_repeat(&mut self) -> (r: Result<(), ExecError>)
        requires
            old(self).wf(),
            !old(self)@.over(),
        ensures
            final(self).wf(),
            (Landing { result: r, state: final(self)@ }) == old(self)@.entered(
                Block::RepeatBlock(old(self)@.pc as usize),
            ).proceeds(),
    {
        self.blockstack.push(Block::RepeatBlock(self.pc));
        Ok(())
    }

    /// Runs an `End` that closes the `For` block whose header is at `pc`.
    fn exec_for_end<H: Fn(Query) -> Number>(&mut self, pc: usize, host: &H) -> (r: Result<
        (),
        ExecError,
    >)
        requires
            old(self).wf(),
            reliable(*host),
            !old(self)@.over(),
            old(self)@.blockstack.len() > 0,
            old(self)@.blockstack.last() == Block::ForBlock(pc),
        ensures
            final(self).wf(),
            old(self)@.ends_for(*host, pc as int, Landing { result: r, state: final(self)@ }),
            0 <= final(self)@.pc < final(self)@.statements.len(),
    {
        if pc >= self.statements.len() {
            return Err(ExecError::FailedToFindForNode);
        }
        // the variable is read before the increment is evaluated
        let (var, held, step) = match &self.statements[pc] {
            Statement::Command(Command::For(cmd)) => {
                let held = self.ctx.get(&cmd.var, host);
                let step = cmd.inc.eval(&mut self.ctx, host);
                (cmd.var, held, step)
            },
            _ => {
                return Err(ExecError::FailedToFindForNode);
            },
        };
        proof {
            assert(Outcome::of(step, self.ctx@).arises());
        }
        let inc = match step {
            Ok(inc) => inc,
            Err(e) => {
                return Err(e);
            },
        };
        let next = match Operator::Add.combine(&inc, &held, host) {
            Ok(next) => next,
            Err(e) => {
                return Err(e);
            },
        };
        match self.ctx.set(&var, next) {
            Ok(_) => {},
            Err(e) => {
                return Err(e);
            },
        }
        let verdict = match &self.statements[pc] {
            Statement::Command(Command::For(cmd)) => Self::for_should_execute_loop(
                cmd,
                &mut self.ctx,
                host,
            ),
            _ => Err(ExecError::FailedToFindForNode),
        };
        self.loop_or_leave(verdict, pc)
    }

    /// Runs the `For` at the program counter. This happens once, on entry
    /// to the loop; from then on the loop's `End` does the counting.
    fn exec_for<H: Fn(Query) -> Number>(&mut self, host: &H) -> (r: Result<(), ExecError>)
        requires
            old(self).wf(),
            reliable(*host),
            !old(self)@.over(),
            old(self)@.statements[old(self)@.pc] matches Statement::Command(Command::For(_)),
        ensures
            final(self).wf(),
            old(self)@.effect(*host, Landing { result: r, state: final(self)@ }),
            0 <= final(self)@.pc < final(self)@.statements.len(),
    {
        let (var, first) = match &self.statements[self.pc] {
            Statement::Command(Command::For(cmd)) => (cmd.var, cmd.start.eval(&mut self.ctx, host)),
            _ => {
                return Err(ExecError::FailedToFindForNode);
            },
        };
        proof {
            assert(Outcome::of(first, self.ctx@).arises());
        }
        let start = match first {
            Ok(start) => start,
            Err(e) => {
                return Err(e);
            },
        };
        match self.ctx.set(&var, start) {
            Ok(_) => {},
            Err(e) => {
                return Err(e);
            },
        }
        self.blockstack.push(Block::ForBlock(self.pc));

        let verdict = match &self.statements[self.pc] {
            Statement::Command(Command::For(cmd)) => Self::for_should_execute_loop(
                cmd,
                &mut self.ctx,
                host,
            ),
            _ => Err(ExecError::FailedToFindForNode),
        };
        match verdict {
            Ok(true) => Ok(()),
            Ok(false) => {
                // nothing to run: go to the `End`
                proof {
                    lemma_scan_stops(self@.statements, self@.pc + 1, false, false);
                }
                self.scan_and_advance(false, false)
            },
            Err(e) => Err(e),
        }
    }

    /// Runs the `DS<(` or `IS>(` at the program counter.
    fn exec_ds_rs<H: Fn(Query) -> Number>(&mut self, decrement: bool, host: &H) -> (r: Result<
        (),
        ExecError,
    >)
        requires
            old(self).wf(),
            reliable(*host),
            !old(self)@.over(),
            match old(self)@.statements[old(self)@.pc] {
                Statement::Command(Command::DecrementSkip(_, _)) => decrement,
                Statement::Command(Command::IncrementSkip(_, _)) => !decrement,
                _ => false,
            },
        ensures
            final(self).wf(),
            old(self)@.effect(*host, Landing { result: r, state: final(self)@ }),
            0 <= final(self)@.pc < final(self)@.statements.len(),
    {
        let var = match &self.statements[self.pc] {
            Statement::Command(Command::DecrementSkip(var, _)) => *var,
            Statement::Command(Command::IncrementSkip(var, _)) => *var,
            _ => {
                return Err(ExecError::FailedToFindForNode);
            },
        };
        let delta = Value::NumValue(
            if decrement {
                Number::minus_one()
            } else {
                Number::one()
            },
        );
        let held = self.ctx.get(&var, host);
        let new_value = match Operator::Add.combine(&held, &delta, host) {
            Ok(new_value) => new_value,
            Err(e) => {
                return Err(e);
            },
        };
        let lhs = match self.ctx.set(&var, new_value) {
            Ok(stored) => stored,
            Err(e) => {
                return Err(e);
            },
        };
        let bound = match &self.statements[self.pc] {
            Statement::Command(Command::DecrementSkip(_, value)) => value.eval(&mut self.ctx, host),
            Statement::Command(Command::IncrementSkip(_, value)) => value.eval(&mut self.ctx, host),
            _ => Err(ExecError::FailedToFindForNode),
        };
        proof {
            assert(Outcome::of(bound, self.ctx@).arises());
        }
        let rhs = match bound {
            Ok(rhs) => rhs,
            Err(e) => {
                return Err(e);
            },
        };
        let test = if decrement {
            Operator::Less
        } else {
            Operator::Greater
        };
        let skip = match test.decide(&lhs, &rhs) {
            Ok(skip) => skip,
            Err(e) => {
                return Err(e);
            },
        };
        if skip && self.pc + 1 < self.statements.len() {
            self.advance();
        }
        Ok(())
    }

    /// Runs the `Goto` at the program counter.
    fn exec_goto(&mut self) -> (r: Result<(), ExecError>)
        requires
            old(self).wf(),
            !old(self)@.over(),
            old(self)@.statements[old(self)@.pc] matches Statement::Command(Command::Goto(_)),
        ensures
            final(self).wf(),
            old(self)@.statements[old(self)@.pc] matches Statement::Command(Command::Goto(label))
                && (Landing { result: r, state: final(self)@ }) == old(self)@.runs_goto(label),
            0 <= final(self)@.pc < final(self)@.statements.len(),
    {
        let key = match &self.statements[self.pc] {
            Statement::Command(Command::Goto(label)) => label.cache_key(),
            _ => {
                return Err(ExecError::FailedToFindForNode);
            },
        };
        proof {
            let label = old(self)@.statements[old(self)@.pc]->Command_0->Goto_0;
            assert(key == label.key());
            lemma_label_in_range(self@.statements, label, 0);
        }
        match self.label_cache.get(&key) {
            Some(loc) => {
                self.pc = *loc;
                Ok(())
            },
            None => Err(ExecError::UnknownLabel),
        }
    }
}

impl Program {
    /// Runs the statement at the program counter and moves the program
    /// counter on.
    pub fn step<H: Fn(Query) -> Number>(&mut self, host: &H) -> (r: Result<(), ExecError>)
        requires
            old(self).wf(),
            reliable(*host),
            !old(self)@.over(),
        ensures
            final(self).wf(),
            old(self)@.performs(*host, Landing { result: r, state: final(self)@ }),
            old(self)@.blocks_match() ==> final(self)@.blocks_match(),
            0 <= final(self)@.pc <= final(self)@.statements.len(),
    {
        let done = match &self.statements[self.pc] {
            Statement::Expression(_) => self.exec_expression(host),
            Statement::Command(statement) => match statement {
                Command::If(_) => self.exec_if(host),
                Command::Then => self.exec_then(),
                Command::Else => self.exec_else(),
                Command::End => self.exec_end(host),
                Command::Disp(_) => self.exec_disp(host),
                Command::For(_) => self.exec_for(host),
                Command::While(_) => self.exec_while(host),
                Command::Repeat(_) => self.exec_repeat(),
                Command::Lbl(_) => Ok(()),
                Command::Goto(_) => self.exec_goto(),
                Command::DecrementSkip(_, _) => self.exec_ds_rs(true, host),
                Command::IncrementSkip(_, _) => self.exec_ds_rs(false, host),
            },
        };
        proof {
            assert((Landing { result: done, state: self@ }).arises());
        }
        let r = match done {
            Ok(()) => {
                self.advance();
                Ok(())
            },
            Err(e) => Err(e),
        };
        proof {
            if old(self)@.blocks_match() {
                lemma_blocks_stay_matched(*host, old(self)@, Landing { result: r, state: self@ });
            }
        }
        r
    }

    /// Runs the program from the program counter on, for at most `limit`
    /// steps.
    pub fn execute<H: Fn(Query) -> Number>(&mut self, host: &H, limit: u64) -> (r: Result<
        (),
        ExecError,
    >)
        requires
            old(self).wf(),
            reliable(*host),
        ensures
            final(self).wf(),
            old(self)@.runs(*host, limit as nat, Landing { result: r, state: final(self)@ }),
            old(self)@.blocks_match() ==> final(self)@.blocks_match(),
            old(self)@.pc <= old(self)@.statements.len() ==> final(self)@.pc
                <= final(self)@.statements.len(),
    {
        let mut done: u64 = 0;
        while done < limit && !self.over()
            invariant
                self.wf(),
                reliable(*host),
                done <= limit,
                old(self)@.reaches(*host, done as nat, self@),
                old(self)@.blocks_match() ==> self@.blocks_match(),
                self@.statements == old(self)@.statements,
                old(self)@.pc <= old(self)@.statements.len() ==> self@.pc <= self@.statements.len(),
            decreases limit - done,
        {
            let ghost last = self@;
            match self.step(host) {
                Ok(()) => {},
                Err(e) => {
                    return Err(e);
                },
            }
            proof {
                assert((Landing { result: Ok(()), state: last }).arises());
            }
            done += 1;
        }
        Ok(())
    }
}

/// Runs `program` from its program counter on, for at most `limit` steps.
/// Whether it got to the end is for [`Program::over`] to say.
pub fn execute<H: Fn(Query) -> Number>(program: &mut Program, host: &H, limit: u64) -> (r: Result<
    (),
    ExecError,
>)
    requires
        old(program).wf(),
        reliable(*host),
    ensures
        final(program).wf(),
        old(program)@.runs(*host, limit as nat, Landing { result: r, state: final(program)@ }),
        old(program)@.blocks_match() ==> final(program)@.blocks_match(),
        old(program)@.pc <= old(program)@.statements.len() ==> final(program)@.pc
            <= final(program)@.statements.len(),
{
    program.execute(host, limit)
}

} // verus!
