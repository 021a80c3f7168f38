//! What holds of every run.

use vstd::prelude::*;
use crate::context::{ContextView, Variable};
use crate::error::ExecError;
use crate::executor::{
    is_else, is_end, is_if, lemma_label_in_range, lemma_scan_stops, opens_block, scan_target,
    Block, Landing, ProgramView,
};
use crate::expr::{
    evaluates, gathers, negation, stores, BinaryOp, Expr, ExprList, Operator, Outcome, VarRef,
};
use crate::host::{answers, Arithmetic, Query};
use crate::number::Number;
use crate::statement::{Command, Statement};
use crate::value::{Value, ValueView};

verus! {

/// A step leaves the statements as they are.
pub proof fn lemma_step_keeps_statements<H: Fn(Query) -> Number>(
    host: H,
    before: ProgramView,
    landing: Landing,
)
    requires
        before.performs(host, landing),
    ensures
        landing.state.statements == before.statements,
{
}

/// Whether the blocks on a stack all name headers of their kind among the
/// statements.
pub open spec fn matched(statements: Seq<Statement>, blocks: Seq<Block>) -> bool {
    forall|i: int|
        0 <= i < blocks.len() ==> {
            &&& (#[trigger] blocks[i]).header() < statements.len()
            &&& blocks[i].opened_by(statements[blocks[i].header() as int])
        }
}

/// If every block on the stack names a header of its kind before a
/// statement has its effect, then so does every block on the stack after
/// it, whether the statement ends well or not.
pub proof fn lemma_effect_keeps_blocks_matched<H: Fn(Query) -> Number>(
    host: H,
    before: ProgramView,
    landing: Landing,
)
    requires
        0 <= before.pc < before.statements.len() <= usize::MAX,
        before.effect(host, landing),
        before.blocks_match(),
    ensures
        landing.state.blocks_match(),
        landing.state.statements == before.statements,
{
    let statements = before.statements;
    let blocks = before.blockstack;
    let after = landing.state.blockstack;
    assert(matched(statements, blocks));
    assert(blocks.len() > 0 ==> matched(statements, blocks.drop_last()));
    assert forall|block: Block|
        block.header() == before.pc && block.opened_by(
            statements[before.pc],
        ) implies #[trigger] matched(statements, blocks.push(block)) by {
        assert forall|i: int| 0 <= i < blocks.push(block).len() implies {
            &&& (#[trigger] blocks.push(block)[i]).header() < statements.len()
            &&& blocks.push(block)[i].opened_by(statements[blocks.push(block)[i].header() as int])
        } by {
            if i < blocks.len() {
                assert(blocks.push(block)[i] == blocks[i]);
            }
        }
    }
    assert(landing.state.statements == statements && (after == blocks || (blocks.len() > 0
        && after == blocks.drop_last()) || exists|block: Block|
        block.header() == before.pc && block.opened_by(statements[before.pc]) && after
            == #[trigger] blocks.push(block))) by {
        match statements[before.pc] {
            Statement::Expression(_) => {},
            Statement::Command(command) => match command {
                Command::If(_) => {
                    assert(after == blocks || after == blocks.push(
                        Block::IfBlock(before.pc as usize, true),
                    ) || after == blocks.push(Block::IfBlock(before.pc as usize, false)));
                },
                Command::For(_) => {
                    assert(after == blocks || after == blocks.push(
                        Block::ForBlock(before.pc as usize),
                    ));
                },
                Command::While(_) => {
                    assert(after == blocks.push(Block::WhileBlock(before.pc as usize)));
                },
                Command::Repeat(_) => {
                    assert(after == blocks.push(Block::RepeatBlock(before.pc as usize)));
                },
                Command::End => {
                    assert(after == blocks || (blocks.len() > 0 && after == blocks.drop_last()));
                },
                _ => {},
            },
        }
    }
    assert(matched(statements, after));
}

/// If every block on the stack names a header of its kind before a step,
/// then so does every block on the stack after it, whether the step ends
/// well or not.
pub proof fn lemma_blocks_stay_matched<H: Fn(Query) -> Number>(
    host: H,
    before: ProgramView,
    landing: Landing,
)
    requires
        before.performs(host, landing),
        before.blocks_match(),
    ensures
        landing.state.blocks_match(),
{
    let mid = choose|mid: Landing| #[trigger]
        mid.arises() && before.effect(host, mid) && landing == match mid.result {
            Ok(()) => mid.state.at(mid.state.pc + 1).proceeds(),
            Err(_) => mid,
        };
    lemma_effect_keeps_blocks_matched(host, before, mid);
}

/// After a step that ends well the program counter is the index of a
/// statement or the number of statements.
pub proof fn lemma_pc_after_step<H: Fn(Query) -> Number>(
    host: H,
    before: ProgramView,
    landing: Landing,
)
    requires
        before.performs(host, landing),
        landing.result is Ok,
    ensures
        0 <= landing.state.pc <= before.statements.len(),
        landing.state.statements == before.statements,
{
    let statements = before.statements;
    let mid = choose|mid: Landing| #[trigger]
        mid.arises() && before.effect(host, mid) && landing == match mid.result {
            Ok(()) => mid.state.at(mid.state.pc + 1).proceeds(),
            Err(_) => mid,
        };
    lemma_scan_stops(statements, before.pc + 1, true, false);
    lemma_scan_stops(statements, before.pc + 1, false, false);
    assert(0 <= mid.state.pc < statements.len()) by {
        match statements[before.pc] {
            Statement::Expression(_) => {},
            Statement::Command(command) => match command {
                Command::Goto(label) => {
                    lemma_label_in_range(statements, label, 0);
                },
                _ => {},
            },
        }
    }
}

/// Steps that end well from a state whose program counter is at most the
/// number of statements lead to such a state.
pub proof fn lemma_pc_after_steps<H: Fn(Query) -> Number>(
    host: H,
    before: ProgramView,
    count: nat,
    end: ProgramView,
)
    requires
        before.reaches(host, count, end),
        0 <= before.pc <= before.statements.len(),
    ensures
        0 <= end.pc <= end.statements.len(),
        end.statements == before.statements,
    decreases count,
{
    if count > 0 {
        let mid = choose|mid: Landing| #[trigger]
            mid.arises() && before.reaches(host, (count - 1) as nat, mid.state)
                && mid.state.performs(host, end.proceeds());
        lemma_pc_after_steps(host, before, (count - 1) as nat, mid.state);
        lemma_pc_after_step(host, mid.state, end.proceeds());
    }
}

/// Whether the statement is a `DS<(` or an `IS>(`.
pub open spec fn is_skip(statement: Statement) -> bool {
    statement is Command && (statement->Command_0 is DecrementSkip || statement->Command_0
        is IncrementSkip)
}

/// After an expression statement that ends well, `Ans` is a value that the
/// expression evaluates to in the context before the statement, and the
/// variables are as that evaluation left them.
pub proof fn lemma_ans_is_the_value<H: Fn(Query) -> Number>(
    host: H,
    before: ProgramView,
    landing: Landing,
)
    requires
        before.performs(host, landing),
        landing.result is Ok,
        before.statements[before.pc] is Expression,
    ensures
        exists|o: Outcome| #[trigger]
            o.arises() && evaluates(host, before.statements[before.pc]->Expression_0, before.ctx, o)
                && o.result == Ok::<ValueView, ExecError>(landing.state.ctx.ans)
                && landing.state.ctx.reals == o.ctx.reals,
{
    let e = before.statements[before.pc]->Expression_0;
    let mid = choose|mid: Landing| #[trigger]
        mid.arises() && before.effect(host, mid) && landing == match mid.result {
            Ok(()) => mid.state.at(mid.state.pc + 1).proceeds(),
            Err(_) => mid,
        };
    let o = choose|o: Outcome| #[trigger]
        o.arises() && evaluates(host, e, before.ctx, o) && mid == match o.result {
            Ok(v) => before.within(o.ctx.with_ans(v)).proceeds(),
            Err(e) => before.within(o.ctx).fails(e),
        };
    assert(o.arises());
}

/// A read of a variable that has been set, or of `Ans`, gives the value
/// that the variable holds and leaves every variable as it is: the same
/// read gives the same value again, whatever the host replies to anything.
pub proof fn lemma_read_is_transparent<H: Fn(Query) -> Number>(
    host: H,
    ctx: ContextView,
    var: Variable,
    out: Outcome,
)
    requires
        evaluates(host, Expr::Var(VarRef { var }), ctx, out),
        match var {
            Variable::RealVar(name) => ctx.reals.contains_key(name as u32),
            Variable::Ans => true,
        },
    ensures
        out.ctx == ctx,
        out.result == Ok::<ValueView, ExecError>(
            match var {
                Variable::RealVar(name) => ctx.reals[name as u32],
                Variable::Ans => ctx.ans,
            },
        ),
{
}

/// A list plus a number is a list of the same length, each element of
/// which is what the host gives as the sum of the list's element and the
/// number.
pub proof fn lemma_list_plus_number<H: Fn(Query) -> Number>(
    host: H,
    list: Seq<Number>,
    number: Number,
    r: Result<ValueView, ExecError>,
)
    requires
        Operator::Add.combines(host, ValueView::List(list), ValueView::Number(number), r),
    ensures
        r matches Ok(ValueView::List(sums)) && sums.len() == list.len() && forall|i: int|
            0 <= i < list.len() ==> answers(
                host,
                Query::Compute(Arithmetic::Add, list[i], number),
                #[trigger] sums[i],
            ),
{
    match r {
        Ok(ValueView::List(sums)) => {
            let numbers = Seq::new(list.len(), |i: int| number);
            assert forall|i: int| 0 <= i < list.len() implies answers(
                host,
                Query::Compute(Arithmetic::Add, list[i], number),
                #[trigger] sums[i],
            ) by {
                assert(Operator::Add.scalar(host, list[i], numbers[i], Ok(sums[i])));
            }
        },
        _ => {},
    }
}

/// The headers of the blocks that are open where the statement at `upto`
/// begins, outermost first: a header opens its block, and an `End` closes
/// the innermost block that is open.
pub open spec fn open_before(statements: Seq<Statement>, upto: int) -> Seq<int>
    decreases upto,
{
    if upto <= 0 {
        Seq::empty()
    } else {
        let outer = open_before(statements, upto - 1);
        if opens_block(statements, upto - 1) {
            outer.push(upto - 1)
        } else if upto - 1 < statements.len() && is_end(statements[upto - 1]) && outer.len() > 0 {
            outer.drop_last()
        } else {
            outer
        }
    }
}

/// The headers that the blocks of a stack name, outermost first.
pub open spec fn headers(blocks: Seq<Block>) -> Seq<int> {
    Seq::new(blocks.len(), |i: int| blocks[i].header() as int)
}

/// Whether the block stack holds just the blocks whose text the program
/// counter stands in.
pub open spec fn nested(state: ProgramView) -> bool {
    headers(state.blockstack) == open_before(state.statements, state.pc)
}

/// Whether a step from `before` to `after` stays on its level of nesting
/// if the statement is one that can jump or skip: a `Goto`, a `DS<(`, an
/// `IS>(`, or an `If` without a `Then`. For any other statement it holds.
pub open spec fn stays_level(before: ProgramView, after: ProgramView) -> bool {
    let statement = before.statements[before.pc];
    (is_skip(statement) || (statement is Command && statement->Command_0 is Goto) || (
    statement is Command && statement->Command_0 is If && !opens_block(
        before.statements,
        before.pc,
    ))) ==> open_before(before.statements, after.pc) == open_before(
        before.statements,
        before.pc,
    )
}

/// A scan stops on the level of nesting on which it began.
pub proof fn lemma_scan_keeps_level(
    statements: Seq<Statement>,
    from: int,
    expect_else: bool,
    skip_else: bool,
)
    requires
        0 <= from,
    ensures
        scan_target(statements, from, expect_else, skip_else) matches Ok(target) ==> open_before(
            statements,
            target + 1,
        ) == open_before(statements, from),
    decreases statements.len() - from,
{
    if from >= statements.len() {
    } else if is_else(statements[from]) {
        if expect_else && skip_else {
            lemma_scan_keeps_level(statements, from + 1, expect_else, skip_else);
        }
    } else if is_end(statements[from]) {
    } else if opens_block(statements, from) {
        let nested_if = is_if(statements, from);
        lemma_scan_keeps_level(statements, from + 1, nested_if, nested_if);
        lemma_scan_stops(statements, from + 1, nested_if, nested_if);
        match scan_target(statements, from + 1, nested_if, nested_if) {
            Ok(inner) => {
                let outer = open_before(statements, from);
                assert(open_before(statements, inner + 1) == outer.push(from));
                assert(outer.push(from).drop_last() =~= outer);
                assert(open_before(statements, inner + 2) == outer);
                lemma_scan_keeps_level(statements, inner + 2, expect_else, skip_else);
            },
            Err(_) => {},
        }
    } else {
        lemma_scan_keeps_level(statements, from + 1, expect_else, skip_else);
    }
}

/// Every block that is open at a position was opened by a header before
/// it, and the blocks that were open behind that header are the block and
/// those outside it.
pub proof fn lemma_open_since_header(statements: Seq<Statement>, upto: int, k: int)
    requires
        0 <= k < open_before(statements, upto).len(),
    ensures
        0 <= open_before(statements, upto)[k] < upto,
        opens_block(statements, open_before(statements, upto)[k]),
        open_before(statements, open_before(statements, upto)[k] + 1) == open_before(
            statements,
            upto,
        ).subrange(0, k + 1),
    decreases upto,
{
    if upto > 0 {
        let outer = open_before(statements, upto - 1);
        let now = open_before(statements, upto);
        if opens_block(statements, upto - 1) {
            if k < outer.len() {
                lemma_open_since_header(statements, upto - 1, k);
                assert(now.subrange(0, k + 1) =~= outer.subrange(0, k + 1));
            } else {
                assert(now.subrange(0, k + 1) =~= now);
            }
        } else if upto - 1 < statements.len() && is_end(statements[upto - 1]) && outer.len() > 0 {
            lemma_open_since_header(statements, upto - 1, k);
            assert(now.subrange(0, k + 1) =~= outer.subrange(0, k + 1));
        } else {
            lemma_open_since_header(statements, upto - 1, k);
        }
    }
}

/// If the block stack holds just the blocks whose text the program counter
/// stands in, then it still does after a step that ends well, unless the
/// step jumps or skips to another level of nesting (see [`stays_level`]).
pub proof fn lemma_stack_follows_nesting<H: Fn(Query) -> Number>(
    host: H,
    before: ProgramView,
    landing: Landing,
)
    requires
        before.performs(host, landing),
        landing.result is Ok,
        nested(before),
        stays_level(before, landing.state),
    ensures
        nested(landing.state),
{
    let statements = before.statements;
    let pc = before.pc;
    let blocks = before.blockstack;
    let open = open_before(statements, pc);
    let mid = choose|mid: Landing| #[trigger]
        mid.arises() && before.effect(host, mid) && landing == match mid.result {
            Ok(()) => mid.state.at(mid.state.pc + 1).proceeds(),
            Err(_) => mid,
        };
    let after = mid.state.blockstack;
    let to = mid.state.pc + 1;
    assert(landing.state.pc == to && landing.state.blockstack == after
        && landing.state.statements == statements);
    lemma_scan_keeps_level(statements, pc + 1, true, false);
    lemma_scan_keeps_level(statements, pc + 1, false, false);
    lemma_scan_stops(statements, pc + 1, true, false);
    lemma_scan_stops(statements, pc + 1, false, false);
    assert forall|block: Block| block.header() == pc implies #[trigger] headers(
        blocks.push(block),
    ) == open.push(pc) by {
        assert(headers(blocks.push(block)) =~= headers(blocks).push(pc));
    }
    if blocks.len() > 0 {
        assert(headers(blocks.drop_last()) =~= open.drop_last());
        lemma_open_since_header(statements, pc, blocks.len() - 1);
        assert(open.subrange(0, blocks.len() as int) =~= open);
        assert(headers(blocks)[blocks.len() - 1] == blocks.last().header());
    }
    match statements[pc] {
        Statement::Expression(_) => {
            assert(after == blocks && to == pc + 1);
        },
        Statement::Command(command) => match command {
            Command::If(_) => {
                if opens_block(statements, pc) {
                    assert(exists|block: Block|
                        block.header() == pc && after == #[trigger] blocks.push(block));
                    assert(open_before(statements, to) == open.push(pc)) by {
                        match scan_target(statements, pc + 1, true, false) {
                            Ok(target) => {
                                assert(to == pc + 2 || to == target + 1 || (to == target + 2
                                    && is_else(statements[target + 1])));
                            },
                            Err(_) => {
                                assert(to == pc + 2);
                            },
                        }
                    }
                } else {
                    assert(after == blocks);
                }
            },
            Command::Then => {},
            Command::Else => {
                assert(after == blocks);
                assert(scan_target(statements, pc + 1, false, false) == Ok::<int, ExecError>(
                    to - 1,
                ));
            },
            Command::End => {
                assert(blocks.len() > 0);
                assert((after == blocks.drop_last() && to == pc + 1) || (after == blocks && to
                    == blocks.last().header() + 1));
            },
            Command::Disp(_) => {
                assert(after == blocks && to == pc + 1);
            },
            Command::For(_) => {
                assert(after == blocks.push(Block::ForBlock(pc as usize)));
                assert(to == pc + 1 || scan_target(statements, pc + 1, false, false) == Ok::<
                    int,
                    ExecError,
                >(to - 1));
            },
            Command::While(_) => {
                assert(after == blocks.push(Block::WhileBlock(pc as usize)));
                assert(to == pc + 1 || scan_target(statements, pc + 1, false, false) == Ok::<
                    int,
                    ExecError,
                >(to - 1));
            },
            Command::Repeat(_) => {
                assert(after == blocks.push(Block::RepeatBlock(pc as usize)));
            },
            Command::Lbl(_) => {},
            Command::Goto(_) => {
                assert(after == blocks);
            },
            Command::DecrementSkip(_, _) => {
                assert(after == blocks);
            },
            Command::IncrementSkip(_, _) => {
                assert(after == blocks);
            },
        },
    }
}

/// Steps that end well leave the statements as they are and keep every
/// block on the stack matched with a header of its kind.
pub proof fn lemma_reach_keeps_blocks_matched<H: Fn(Query) -> Number>(
    host: H,
    before: ProgramView,
    count: nat,
    end: ProgramView,
)
    requires
        before.reaches(host, count, end),
        before.blocks_match(),
    ensures
        end.blocks_match(),
        end.statements == before.statements,
    decreases count,
{
    if count > 0 {
        let mid = choose|mid: Landing| #[trigger]
            mid.arises() && before.reaches(host, (count - 1) as nat, mid.state)
                && mid.state.performs(host, end.proceeds());
        lemma_reach_keeps_blocks_matched(host, before, (count - 1) as nat, mid.state);
        lemma_blocks_stay_matched(host, mid.state, end.proceeds());
    }
}

/// A run, however it ends, leaves the statements as they are and keeps
/// every block on the stack matched with a header of its kind.
pub proof fn lemma_run_keeps_blocks_matched<H: Fn(Query) -> Number>(
    host: H,
    before: ProgramView,
    limit: nat,
    landing: Landing,
)
    requires
        before.runs(host, limit, landing),
        before.blocks_match(),
    ensures
        landing.state.blocks_match(),
        landing.state.statements == before.statements,
{
    let (count, last) = choose|count: nat, last: ProgramView| #[trigger]
        before.reaches(host, count, last) && count <= limit && match landing.result {
            Ok(()) => landing.state == last && (last.over() || count == limit),
            Err(_) => count < limit && last.performs(host, landing),
        };
    lemma_reach_keeps_blocks_matched(host, before, count, last);
    if landing.result is Err {
        lemma_blocks_stay_matched(host, last, landing);
    }
}

/// Statements that are appended to a program leave every block on the
/// stack matched with its header.
pub proof fn lemma_growth_keeps_blocks_matched(before: ProgramView, more: Seq<Statement>)
    requires
        before.blocks_match(),
    ensures
        (ProgramView { statements: before.statements + more, ..before }).blocks_match(),
{
    let after = ProgramView { statements: before.statements + more, ..before };
    assert forall|i: int| 0 <= i < after.blockstack.len() implies {
        &&& (#[trigger] after.blockstack[i]).header() < after.statements.len()
        &&& after.blockstack[i].opened_by(after.statements[after.blockstack[i].header() as int])
    } by {
        assert(before.blockstack[i].header() < before.statements.len());
        assert(after.statements[before.blockstack[i].header() as int]
            == before.statements[before.blockstack[i].header() as int]);
    }
}

/// Whether the host has one reply to every query.
pub open spec fn single_valued<H: Fn(Query) -> Number>(host: H) -> bool {
    forall|q: Query, m: Number, n: Number|
        #[trigger] answers(host, q, m) && #[trigger] answers(host, q, n) ==> m == n
}

/// With a host that has one reply to every query, an operator has one
/// result on two values.
pub proof fn lemma_combination_is_determined<H: Fn(Query) -> Number>(
    host: H,
    op: Operator,
    x: ValueView,
    y: ValueView,
    a: Result<ValueView, ExecError>,
    b: Result<ValueView, ExecError>,
)
    requires
        single_valued(host),
        op.combines(host, x, y, a),
        op.combines(host, x, y, b),
    ensures
        a == b,
{
    let (left, right) = match (x, y) {
        (ValueView::Number(p), ValueView::Number(q)) => (seq![p], seq![q]),
        (ValueView::Number(p), ValueView::List(l)) => (Seq::new(l.len(), |i: int| p), l),
        (ValueView::List(l), ValueView::Number(q)) => (l, Seq::new(l.len(), |i: int| q)),
        (ValueView::List(l), ValueView::List(m)) => (l, m),
    };
    if (x is List || y is List) && !op.logical() {
        if !(x is List && y is List && left.len() != right.len()) {
            assert(op.pointwise(host, left, right, a));
            assert(op.pointwise(host, left, right, b));
            match (a, b) {
                (Ok(ValueView::List(s)), Ok(ValueView::List(t))) => {
                    assert forall|i: int| 0 <= i < s.len() implies s[i] == t[i] by {
                        assert(op.scalar(host, left[i], right[i], Ok(s[i])));
                        assert(op.scalar(host, left[i], right[i], Ok(t[i])));
                    }
                    assert(s =~= t);
                },
                (Ok(ValueView::List(s)), Err(_)) => {
                    let i = choose|i: int| 0 <= i < left.len() && #[trigger] op.fails(
                        left[i],
                        right[i],
                    );
                    assert(op.scalar(host, left[i], right[i], Ok(s[i])));
                },
                (Err(_), Ok(ValueView::List(t))) => {
                    let i = choose|i: int| 0 <= i < left.len() && #[trigger] op.fails(
                        left[i],
                        right[i],
                    );
                    assert(op.scalar(host, left[i], right[i], Ok(t[i])));
                },
                _ => {},
            }
        }
    }
}

/// With a host that has one reply to every query, an expression has one
/// outcome in a context: the contract of an evaluation then says what is
/// returned.
pub proof fn lemma_evaluation_is_determined<H: Fn(Query) -> Number>(
    host: H,
    e: Expr,
    before: ContextView,
    a: Outcome,
    b: Outcome,
)
    requires
        single_valued(host),
        evaluates(host, e, before, a),
        evaluates(host, e, before, b),
    ensures
        a == b,
    decreases e, 0nat,
{
    match e {
        Expr::Value(_) => {},
        Expr::Literal(_) => {},
        Expr::Var(_) => {},
        Expr::Store(node) => {
            let p = choose|inner: Outcome| #[trigger]
                inner.arises() && evaluates(host, *node.val, before, inner) && stores(
                    inner,
                    node.var,
                    a,
                );
            let q = choose|inner: Outcome| #[trigger]
                inner.arises() && evaluates(host, *node.val, before, inner) && stores(
                    inner,
                    node.var,
                    b,
                );
            lemma_evaluation_is_determined(host, *node.val, before, p, q);
        },
        Expr::Binary(node) => {
            let p = choose|left: Outcome| #[trigger]
                left.arises() && evaluates(host, *node.lhs, before, left) && match left.result {
                    Err(_) => a == left,
                    Ok(x) => exists|right: Outcome| #[trigger]
                        right.arises() && evaluates(host, *node.rhs, left.ctx, right)
                            && match right.result {
                            Err(_) => a == right,
                            Ok(y) => a.ctx == right.ctx && node.op.combines(host, x, y, a.result),
                        },
                };
            let q = choose|left: Outcome| #[trigger]
                left.arises() && evaluates(host, *node.lhs, before, left) && match left.result {
                    Err(_) => b == left,
                    Ok(x) => exists|right: Outcome| #[trigger]
                        right.arises() && evaluates(host, *node.rhs, left.ctx, right)
                            && match right.result {
                            Err(_) => b == right,
                            Ok(y) => b.ctx == right.ctx && node.op.combines(host, x, y, b.result),
                        },
                };
            lemma_evaluation_is_determined(host, *node.lhs, before, p, q);
            if let Ok(x) = p.result {
                let r = choose|right: Outcome| #[trigger]
                    right.arises() && evaluates(host, *node.rhs, p.ctx, right)
                        && match right.result {
                        Err(_) => a == right,
                        Ok(y) => a.ctx == right.ctx && node.op.combines(host, x, y, a.result),
                    };
                let t = choose|right: Outcome| #[trigger]
                    right.arises() && evaluates(host, *node.rhs, p.ctx, right)
                        && match right.result {
                        Err(_) => b == right,
                        Ok(y) => b.ctx == right.ctx && node.op.combines(host, x, y, b.result),
                    };
                lemma_evaluation_is_determined(host, *node.rhs, p.ctx, r, t);
                if let Ok(y) = r.result {
                    lemma_combination_is_determined(host, node.op, x, y, a.result, b.result);
                }
            }
        },
        Expr::Not(node) => {
            let p = choose|inner: Outcome| #[trigger]
                inner.arises() && evaluates(host, *node.val, before, inner) && match inner.result {
                    Err(_) => a == inner,
                    Ok(ValueView::Number(n)) => a == (Outcome {
                        result: Ok(ValueView::of_bool(!n.truth())),
                        ctx: inner.ctx,
                    }),
                    Ok(ValueView::List(_)) => a == (Outcome {
                        result: Err(ExecError::TypeMismatch),
                        ctx: inner.ctx,
                    }),
                };
            let q = choose|inner: Outcome| #[trigger]
                inner.arises() && evaluates(host, *node.val, before, inner) && match inner.result {
                    Err(_) => b == inner,
                    Ok(ValueView::Number(n)) => b == (Outcome {
                        result: Ok(ValueView::of_bool(!n.truth())),
                        ctx: inner.ctx,
                    }),
                    Ok(ValueView::List(_)) => b == (Outcome {
                        result: Err(ExecError::TypeMismatch),
                        ctx: inner.ctx,
                    }),
                };
            lemma_evaluation_is_determined(host, *node.val, before, p, q);
        },
        Expr::Negate(node) => {
            let p = choose|inner: Outcome| #[trigger]
                inner.arises() && evaluates(host, *node.val, before, inner) && match inner.result {
                    Err(_) => a == inner,
                    Ok(ValueView::Number(n)) => {
                        &&& a.ctx == inner.ctx
                        &&& a.result matches Ok(ValueView::Number(m)) && answers(
                            host,
                            negation(n),
                            m,
                        )
                    },
                    Ok(ValueView::List(_)) => a == (Outcome {
                        result: Err(ExecError::TypeMismatch),
                        ctx: inner.ctx,
                    }),
                };
            let q = choose|inner: Outcome| #[trigger]
                inner.arises() && evaluates(host, *node.val, before, inner) && match inner.result {
                    Err(_) => b == inner,
                    Ok(ValueView::Number(n)) => {
                        &&& b.ctx == inner.ctx
                        &&& b.result matches Ok(ValueView::Number(m)) && answers(
                            host,
                            negation(n),
                            m,
                        )
                    },
                    Ok(ValueView::List(_)) => b == (Outcome {
                        result: Err(ExecError::TypeMismatch),
                        ctx: inner.ctx,
                    }),
                };
            lemma_evaluation_is_determined(host, *node.val, before, p, q);
        },
        Expr::List(node) => {
            lemma_gathering_is_determined(host, node, node.exprs.len() as nat, before, a, b);
        },
    }
}

/// The same for the elements of a list.
pub proof fn lemma_gathering_is_determined<H: Fn(Query) -> Number>(
    host: H,
    list: ExprList,
    count: nat,
    before: ContextView,
    a: Outcome,
    b: Outcome,
)
    requires
        single_valued(host),
        gathers(host, list, count, before, a),
        gathers(host, list, count, before, b),
    ensures
        a == b,
    decreases list, count,
{
    if !(count == 0 || count > list.exprs.len()) {
        let p = choose|front: Outcome| #[trigger]
            front.arises() && gathers(host, list, (count - 1) as nat, before, front)
                && match front.result {
                Ok(ValueView::List(values)) => exists|item: Outcome| #[trigger]
                    item.arises() && evaluates(host, list.exprs[count - 1], front.ctx, item)
                        && match item.result {
                        Err(_) => a == item,
                        Ok(ValueView::Number(n)) => a == (Outcome {
                            result: Ok(ValueView::List(values.push(n))),
                            ctx: item.ctx,
                        }),
                        Ok(ValueView::List(_)) => a == (Outcome {
                            result: Err(ExecError::NonNumericTypeInList),
                            ctx: item.ctx,
                        }),
                    },
                _ => a == front,
            };
        let q = choose|front: Outcome| #[trigger]
            front.arises() && gathers(host, list, (count - 1) as nat, before, front)
                && match front.result {
                Ok(ValueView::List(values)) => exists|item: Outcome| #[trigger]
                    item.arises() && evaluates(host, list.exprs[count - 1], front.ctx, item)
                        && match item.result {
                        Err(_) => b == item,
                        Ok(ValueView::Number(n)) => b == (Outcome {
                            result: Ok(ValueView::List(values.push(n))),
                            ctx: item.ctx,
                        }),
                        Ok(ValueView::List(_)) => b == (Outcome {
                            result: Err(ExecError::NonNumericTypeInList),
                            ctx: item.ctx,
                        }),
                    },
                _ => b == front,
            };
        lemma_gathering_is_determined(host, list, (count - 1) as nat, before, p, q);
        if let Ok(ValueView::List(values)) = p.result {
            let r = choose|item: Outcome| #[trigger]
                item.arises() && evaluates(host, list.exprs[count - 1], p.ctx, item)
                    && match item.result {
                    Err(_) => a == item,
                    Ok(ValueView::Number(n)) => a == (Outcome {
                        result: Ok(ValueView::List(values.push(n))),
                        ctx: item.ctx,
                    }),
                    Ok(ValueView::List(_)) => a == (Outcome {
                        result: Err(ExecError::NonNumericTypeInList),
                        ctx: item.ctx,
                    }),
                };
            let t = choose|item: Outcome| #[trigger]
                item.arises() && evaluates(host, list.exprs[count - 1], p.ctx, item)
                    && match item.result {
                    Err(_) => b == item,
                    Ok(ValueView::Number(n)) => b == (Outcome {
                        result: Ok(ValueView::List(values.push(n))),
                        ctx: item.ctx,
                    }),
                    Ok(ValueView::List(_)) => b == (Outcome {
                        result: Err(ExecError::NonNumericTypeInList),
                        ctx: item.ctx,
                    }),
                };
            lemma_evaluation_is_determined(host, list.exprs[count - 1], p.ctx, r, t);
        }
    }
}

/// With a host that has one reply to every query, an expression has one
/// outcome in every context.
pub proof fn lemma_expression_is_function<H: Fn(Query) -> Number>(host: H, e: Expr)
    requires
        single_valued(host),
    ensures
        forall|c: ContextView, a: Outcome, b: Outcome|
            #[trigger] evaluates(host, e, c, a) && #[trigger] evaluates(host, e, c, b) ==> a == b,
{
    assert forall|c: ContextView, a: Outcome, b: Outcome|
        #[trigger] evaluates(host, e, c, a) && #[trigger] evaluates(host, e, c, b) implies a
        == b by {
        lemma_evaluation_is_determined(host, e, c, a, b);
    }
}

/// With a host that has one reply to every query, `+` has one result on
/// any two values.
pub proof fn lemma_sum_is_function<H: Fn(Query) -> Number>(host: H)
    requires
        single_valued(host),
    ensures
        forall|x: ValueView, y: ValueView, a: Result<ValueView, ExecError>, b: Result<
            ValueView,
            ExecError,
        >|
            #[trigger] Operator::Add.combines(host, x, y, a) && #[trigger] Operator::Add.combines(
                host,
                x,
                y,
                b,
            ) ==> a == b,
{
    assert forall|x: ValueView, y: ValueView, a: Result<ValueView, ExecError>, b: Result<
        ValueView,
        ExecError,
    >|
        #[trigger] Operator::Add.combines(host, x, y, a) && #[trigger] Operator::Add.combines(
            host,
            x,
            y,
            b,
        ) implies a == b by {
        lemma_combination_is_determined(host, Operator::Add, x, y, a, b);
    }
}

/// With a host that has one reply to every query, a statement ends in one
/// way in a state.
pub proof fn lemma_effect_is_determined<H: Fn(Query) -> Number>(
    host: H,
    before: ProgramView,
    a: Landing,
    b: Landing,
)
    requires
        single_valued(host),
        0 <= before.pc < before.statements.len(),
        before.effect(host, a),
        before.effect(host, b),
    ensures
        a == b,
{
    lemma_sum_is_function(host);
    match before.statements[before.pc] {
        Statement::Expression(e) => {
            lemma_expression_is_function(host, e);
        },
        Statement::Command(command) => match command {
            Command::If(e) => {
                lemma_expression_is_function(host, e);
            },
            Command::While(e) => {
                lemma_expression_is_function(host, e);
            },
            Command::Disp(e) => {
                lemma_expression_is_function(host, e);
            },
            Command::For(header) => {
                lemma_expression_is_function(host, header.start);
                lemma_expression_is_function(host, header.stop);
            },
            Command::DecrementSkip(_, bound) => {
                lemma_expression_is_function(host, bound);
            },
            Command::IncrementSkip(_, bound) => {
                lemma_expression_is_function(host, bound);
            },
            Command::End => {
                if before.blockstack.len() > 0 {
                    let header = before.blockstack.last().header() as int;
                    if 0 <= header < before.statements.len() {
                        match before.statements[header] {
                            Statement::Command(Command::For(node)) => {
                                lemma_expression_is_function(host, node.inc);
                                lemma_expression_is_function(host, node.stop);
                            },
                            Statement::Command(Command::While(e)) => {
                                lemma_expression_is_function(host, e);
                            },
                            Statement::Command(Command::Repeat(e)) => {
                                lemma_expression_is_function(host, e);
                            },
                            _ => {},
                        }
                    }
                }
            },
            _ => {},
        },
    }
}

/// With a host that has one reply to every query, a step ends in one way
/// in a state: the contract of a step then says what the step does.
pub proof fn lemma_step_is_determined<H: Fn(Query) -> Number>(
    host: H,
    before: ProgramView,
    a: Landing,
    b: Landing,
)
    requires
        single_valued(host),
        before.performs(host, a),
        before.performs(host, b),
    ensures
        a == b,
{
    let p = choose|mid: Landing| #[trigger]
        mid.arises() && before.effect(host, mid) && a == match mid.result {
            Ok(()) => mid.state.at(mid.state.pc + 1).proceeds(),
            Err(_) => mid,
        };
    let q = choose|mid: Landing| #[trigger]
        mid.arises() && before.effect(host, mid) && b == match mid.result {
            Ok(()) => mid.state.at(mid.state.pc + 1).proceeds(),
            Err(_) => mid,
        };
    lemma_effect_is_determined(host, before, p, q);
}

/// Whether the statement at `at` can skip the statement behind it: a
/// `DS<(`, an `IS>(`, or an `If` without a `Then`.
pub open spec fn skips_next(statements: Seq<Statement>, at: int) -> bool {
    0 <= at < statements.len() && (is_skip(statements[at]) || (is_if(statements, at)
        && !opens_block(statements, at)))
}

/// Whether the statement at `at`, if there is one, neither opens a block
/// nor closes one.
pub open spec fn neutral(statements: Seq<Statement>, at: int) -> bool {
    !opens_block(statements, at) && !(0 <= at < statements.len() && is_end(statements[at]))
}

/// Whether a program runs straight through its blocks: it has no `Goto`,
/// and no statement that can skip the next stands before a header or an
/// `End`.
pub open spec fn straight(statements: Seq<Statement>) -> bool {
    forall|i: int|
        0 <= i < statements.len() ==> {
            &&& !((#[trigger] statements[i]) is Command && statements[i]->Command_0 is Goto)
            &&& skips_next(statements, i) ==> neutral(statements, i + 1)
        }
}

/// In a program that runs straight through its blocks, every step that
/// ends well stays on its level of nesting where it has to.
pub proof fn lemma_straight_stays_level<H: Fn(Query) -> Number>(
    host: H,
    before: ProgramView,
    landing: Landing,
)
    requires
        before.performs(host, landing),
        landing.result is Ok,
        straight(before.statements),
    ensures
        stays_level(before, landing.state),
{
    let statements = before.statements;
    let pc = before.pc;
    let mid = choose|mid: Landing| #[trigger]
        mid.arises() && before.effect(host, mid) && landing == match mid.result {
            Ok(()) => mid.state.at(mid.state.pc + 1).proceeds(),
            Err(_) => mid,
        };
    assert(!(statements[pc] is Command && statements[pc]->Command_0 is Goto));
    if skips_next(statements, pc) {
        assert(neutral(statements, pc + 1));
        assert(landing.state.pc == pc + 1 || landing.state.pc == pc + 2);
        assert(open_before(statements, pc + 1) == open_before(statements, pc));
        assert(open_before(statements, pc + 2) == open_before(statements, pc + 1));
    }
}

/// Whether every one of the first `count` steps of a run from `start` that
/// ends well stays on its level of nesting where it has to (see
/// [`stays_level`]).
pub open spec fn stays_level_throughout<H: Fn(Query) -> Number>(
    host: H,
    start: ProgramView,
    count: nat,
) -> bool {
    forall|done: nat, from: ProgramView, to: ProgramView|
        done < count && #[trigger] start.reaches(host, done, from) && #[trigger] from.performs(
            host,
            to.proceeds(),
        ) ==> stays_level(from, to)
}

/// If the block stack holds just the blocks whose text the program counter
/// stands in when a run starts, it does so at every step of the run, as
/// long as no step ends with an error and none jumps or skips to another
/// level of nesting.
pub proof fn lemma_run_follows_nesting<H: Fn(Query) -> Number>(
    host: H,
    before: ProgramView,
    count: nat,
    end: ProgramView,
)
    requires
        before.reaches(host, count, end),
        stays_level_throughout(host, before, count),
        nested(before),
    ensures
        nested(end),
        end.blockstack.len() == open_before(end.statements, end.pc).len(),
        end.statements == before.statements,
    decreases count,
{
    if count > 0 {
        let mid = choose|mid: Landing| #[trigger]
            mid.arises() && before.reaches(host, (count - 1) as nat, mid.state)
                && mid.state.performs(host, end.proceeds());
        lemma_run_follows_nesting(host, before, (count - 1) as nat, mid.state);
        assert(stays_level(mid.state, end));
        lemma_stack_follows_nesting(host, mid.state, end.proceeds());
    }
    assert(headers(end.blockstack).len() == end.blockstack.len());
}

/// In a program that runs straight through its blocks, the block stack
/// holds just the blocks whose text the program counter stands in, at every
/// step of a run that starts so and goes without an error.
pub proof fn lemma_straight_run_follows_nesting<H: Fn(Query) -> Number>(
    host: H,
    before: ProgramView,
    count: nat,
    end: ProgramView,
)
    requires
        before.reaches(host, count, end),
        straight(before.statements),
        nested(before),
    ensures
        nested(end),
        end.blockstack.len() == open_before(end.statements, end.pc).len(),
        end.statements == before.statements,
{
    assert forall|done: nat, from: ProgramView, to: ProgramView|
        done < count && #[trigger] before.reaches(host, done, from) && #[trigger] from.performs(
            host,
            to.proceeds(),
        ) implies stays_level(from, to) by {
        lemma_steps_keep_statements(host, before, done, from);
        lemma_straight_stays_level(host, from, to.proceeds());
    }
    lemma_run_follows_nesting(host, before, count, end);
}

/// Steps that end well leave the statements as they are.
pub proof fn lemma_steps_keep_statements<H: Fn(Query) -> Number>(
    host: H,
    before: ProgramView,
    count: nat,
    end: ProgramView,
)
    requires
        before.reaches(host, count, end),
    ensures
        end.statements == before.statements,
    decreases count,
{
    if count > 0 {
        let mid = choose|mid: Landing| #[trigger]
            mid.arises() && before.reaches(host, (count - 1) as nat, mid.state)
                && mid.state.performs(host, end.proceeds());
        lemma_steps_keep_statements(host, before, (count - 1) as nat, mid.state);
        lemma_step_keeps_statements(host, mid.state, end.proceeds());
    }
}

/// A program that has not run yet has no open block, as its text at the
/// start has none.
pub proof fn lemma_fresh_is_nested(state: ProgramView)
    requires
        state.pc == 0,
        state.blockstack.len() == 0,
    ensures
        nested(state),
{
    assert(headers(state.blockstack) =~= open_before(state.statements, 0));
}

/// The errors that a step can end with: a step never fails for a command
/// that is not supported, nor for a block stack that does not fit its
/// `End`; and where every block on the stack names a header of its kind, it
/// never fails to find a loop's header.
pub proof fn lemma_errors_of_a_step<H: Fn(Query) -> Number>(
    host: H,
    before: ProgramView,
    landing: Landing,
)
    requires
        before.performs(host, landing),
    ensures
        landing.result matches Err(e) ==> {
            &&& e != ExecError::NotYetImplemented
            &&& e != ExecError::SyntaxError
            &&& e != ExecError::EmptyBlock
            &&& before.blocks_match() ==> e != ExecError::FailedToFindForNode
        },
{
    lemma_no_stray_errors(host);
    lemma_scan_fails(before.statements, before.pc + 1, true, false);
    lemma_scan_fails(before.statements, before.pc + 1, false, false);
    if before.blocks_match() && before.blockstack.len() > 0 {
        assert(before.blockstack.last() == before.blockstack[before.blockstack.len() - 1]);
    }
    let mid = choose|mid: Landing| #[trigger]
        mid.arises() && before.effect(host, mid) && landing == match mid.result {
            Ok(()) => mid.state.at(mid.state.pc + 1).proceeds(),
            Err(_) => mid,
        };
    if let Err(e) = mid.result {
        assert(e != ExecError::NotYetImplemented && e != ExecError::SyntaxError && e
            != ExecError::EmptyBlock && (before.blocks_match() ==> e
            != ExecError::FailedToFindForNode)) by {
            match before.statements[before.pc] {
                Statement::Expression(_) => {},
                Statement::Command(command) => match command {
                    Command::End => {
                        if before.blockstack.len() > 0 {
                            match before.blockstack.last() {
                                Block::IfBlock(_, _) => {},
                                Block::ForBlock(header) => {
                                    assert(before.ends_for(host, header as int, mid));
                                },
                                Block::WhileBlock(header) => {
                                    assert(before.ends_while(host, header as int, mid));
                                },
                                Block::RepeatBlock(header) => {
                                    assert(before.ends_repeat(host, header as int, mid));
                                },
                            }
                        }
                    },
                    _ => {},
                },
            }
        }
    }
}

/// A scan fails only by running off the program or by meeting an `Else`
/// that belongs to no `If`.
pub proof fn lemma_scan_fails(
    statements: Seq<Statement>,
    from: int,
    expect_else: bool,
    skip_else: bool,
)
    requires
        0 <= from,
    ensures
        scan_target(statements, from, expect_else, skip_else) matches Err(e) ==> e
            == ExecError::UnexpectedEof || e == ExecError::UnexpectedElse,
    decreases statements.len() - from,
{
    if from >= statements.len() {
    } else if is_else(statements[from]) {
        if expect_else && skip_else {
            lemma_scan_fails(statements, from + 1, expect_else, skip_else);
        }
    } else if is_end(statements[from]) {
    } else if opens_block(statements, from) {
        let nested_if = is_if(statements, from);
        lemma_scan_fails(statements, from + 1, nested_if, nested_if);
        lemma_scan_stops(statements, from + 1, nested_if, nested_if);
        match scan_target(statements, from + 1, nested_if, nested_if) {
            Ok(inner) => {
                lemma_scan_fails(statements, inner + 2, expect_else, skip_else);
            },
            Err(_) => {},
        }
    } else {
        lemma_scan_fails(statements, from + 1, expect_else, skip_else);
    }
}

/// What evaluations fail with: never with an error that only the run of
/// statements knows.
pub open spec fn stray(e: ExecError) -> bool {
    ||| e == ExecError::NotYetImplemented
    ||| e == ExecError::SyntaxError
    ||| e == ExecError::EmptyBlock
    ||| e == ExecError::FailedToFindForNode
    ||| e == ExecError::UnexpectedEof
    ||| e == ExecError::UnexpectedElse
    ||| e == ExecError::UnexpectedEnd
    ||| e == ExecError::UnexpectedThen
    ||| e == ExecError::UnknownLabel
}

/// An evaluation fails with an error of values and variables only: a wrong
/// shape, a division by zero, a store to `Ans`, a list in a list, or lists
/// of different lengths.
pub proof fn lemma_evaluation_errors<H: Fn(Query) -> Number>(
    host: H,
    e: Expr,
    before: ContextView,
    out: Outcome,
)
    requires
        evaluates(host, e, before, out),
    ensures
        out.result matches Err(error) ==> !stray(error),
    decreases e, 0nat,
{
    match e {
        Expr::Value(_) => {},
        Expr::Literal(_) => {},
        Expr::Var(_) => {},
        Expr::Store(node) => {
            let p = choose|inner: Outcome| #[trigger]
                inner.arises() && evaluates(host, *node.val, before, inner) && stores(
                    inner,
                    node.var,
                    out,
                );
            lemma_evaluation_errors(host, *node.val, before, p);
        },
        Expr::Binary(node) => {
            let p = choose|left: Outcome| #[trigger]
                left.arises() && evaluates(host, *node.lhs, before, left) && match left.result {
                    Err(_) => out == left,
                    Ok(x) => exists|right: Outcome| #[trigger]
                        right.arises() && evaluates(host, *node.rhs, left.ctx, right)
                            && match right.result {
                            Err(_) => out == right,
                            Ok(y) => out.ctx == right.ctx && node.op.combines(
                                host,
                                x,
                                y,
                                out.result,
                            ),
                        },
                };
            lemma_evaluation_errors(host, *node.lhs, before, p);
            if let Ok(x) = p.result {
                let r = choose|right: Outcome| #[trigger]
                    right.arises() && evaluates(host, *node.rhs, p.ctx, right)
                        && match right.result {
                        Err(_) => out == right,
                        Ok(y) => out.ctx == right.ctx && node.op.combines(host, x, y, out.result),
                    };
                lemma_evaluation_errors(host, *node.rhs, p.ctx, r);
            }
        },
        Expr::Not(node) => {
            let p = choose|inner: Outcome| #[trigger]
                inner.arises() && evaluates(host, *node.val, before, inner) && match inner.result {
                    Err(_) => out == inner,
                    Ok(ValueView::Number(n)) => out == (Outcome {
                        result: Ok(ValueView::of_bool(!n.truth())),
                        ctx: inner.ctx,
                    }),
                    Ok(ValueView::List(_)) => out == (Outcome {
                        result: Err(ExecError::TypeMismatch),
                        ctx: inner.ctx,
                    }),
                };
            lemma_evaluation_errors(host, *node.val, before, p);
        },
        Expr::Negate(node) => {
            let p = choose|inner: Outcome| #[trigger]
                inner.arises() && evaluates(host, *node.val, before, inner) && match inner.result {
                    Err(_) => out == inner,
                    Ok(ValueView::Number(n)) => {
                        &&& out.ctx == inner.ctx
                        &&& out.result matches Ok(ValueView::Number(m)) && answers(
                            host,
                            negation(n),
                            m,
                        )
                    },
                    Ok(ValueView::List(_)) => out == (Outcome {
                        result: Err(ExecError::TypeMismatch),
                        ctx: inner.ctx,
                    }),
                };
            lemma_evaluation_errors(host, *node.val, before, p);
        },
        Expr::List(node) => {
            lemma_gathering_errors(host, node, node.exprs.len() as nat, before, out);
        },
    }
}

/// The same for the elements of a list.
pub proof fn lemma_gathering_errors<H: Fn(Query) -> Number>(
    host: H,
    list: ExprList,
    count: nat,
    before: ContextView,
    out: Outcome,
)
    requires
        gathers(host, list, count, before, out),
    ensures
        out.result matches Err(error) ==> !stray(error),
    decreases list, count,
{
    if !(count == 0 || count > list.exprs.len()) {
        let p = choose|front: Outcome| #[trigger]
            front.arises() && gathers(host, list, (count - 1) as nat, before, front)
                && match front.result {
                Ok(ValueView::List(values)) => exists|item: Outcome| #[trigger]
                    item.arises() && evaluates(host, list.exprs[count - 1], front.ctx, item)
                        && match item.result {
                        Err(_) => out == item,
                        Ok(ValueView::Number(n)) => out == (Outcome {
                            result: Ok(ValueView::List(values.push(n))),
                            ctx: item.ctx,
                        }),
                        Ok(ValueView::List(_)) => out == (Outcome {
                            result: Err(ExecError::NonNumericTypeInList),
                            ctx: item.ctx,
                        }),
                    },
                _ => out == front,
            };
        lemma_gathering_errors(host, list, (count - 1) as nat, before, p);
        if let Ok(ValueView::List(values)) = p.result {
            let r = choose|item: Outcome| #[trigger]
                item.arises() && evaluates(host, list.exprs[count - 1], p.ctx, item)
                    && match item.result {
                    Err(_) => out == item,
                    Ok(ValueView::Number(n)) => out == (Outcome {
                        result: Ok(ValueView::List(values.push(n))),
                        ctx: item.ctx,
                    }),
                    Ok(ValueView::List(_)) => out == (Outcome {
                        result: Err(ExecError::NonNumericTypeInList),
                        ctx: item.ctx,
                    }),
                };
            lemma_evaluation_errors(host, list.exprs[count - 1], p.ctx, r);
        }
    }
}

/// No evaluation, of any expression in any context, fails with an error
/// that only the run of statements knows.
pub proof fn lemma_no_stray_errors<H: Fn(Query) -> Number>(host: H)
    ensures
        forall|e: Expr, c: ContextView, out: Outcome| #[trigger]
            evaluates(host, e, c, out) ==> (out.result matches Err(error) ==> !stray(error)),
{
    assert forall|e: Expr, c: ContextView, out: Outcome| #[trigger]
        evaluates(host, e, c, out) implies (out.result matches Err(error) ==> !stray(error)) by {
        lemma_evaluation_errors(host, e, c, out);
    }
}

/// Whether the host replies to an operation on two numbers as it does to
/// the same operation on them the other way round.
pub open spec fn symmetric<H: Fn(Query) -> Number>(host: H, operation: Arithmetic) -> bool {
    forall|a: Number, b: Number, n: Number| #[trigger]
        answers(host, Query::Compute(operation, a, b), n) ==> answers(
            host,
            Query::Compute(operation, b, a),
            n,
        )
}

/// The expression that is a number.
pub open spec fn constant(n: Number) -> Expr {
    Expr::Value(Value::NumValue(n))
}

/// The expression that is an operator between two numbers.
pub open spec fn between(op: Operator, a: Number, b: Number) -> Expr {
    Expr::Binary(BinaryOp { lhs: Box::new(constant(a)), rhs: Box::new(constant(b)), op })
}

/// What an operator between two numbers evaluates to: the context stays as
/// it is, and the result is a result of the operator on the two numbers.
pub proof fn lemma_between_numbers<H: Fn(Query) -> Number>(
    host: H,
    op: Operator,
    a: Number,
    b: Number,
    ctx: ContextView,
    out: Outcome,
)
    ensures
        evaluates(host, between(op, a, b), ctx, out) <==> out.ctx == ctx && op.combines(
            host,
            ValueView::Number(a),
            ValueView::Number(b),
            out.result,
        ),
{
    reveal_with_fuel(evaluates, 3);
    let left = Outcome { result: Ok(ValueView::Number(a)), ctx };
    let right = Outcome { result: Ok(ValueView::Number(b)), ctx };
    assert(left.arises() && right.arises());
    assert(evaluates(host, constant(a), ctx, left));
    assert(evaluates(host, constant(b), ctx, right));
    if out.ctx == ctx && op.combines(
        host,
        ValueView::Number(a),
        ValueView::Number(b),
        out.result,
    ) {
        assert(evaluates(host, between(op, a, b), ctx, out));
    }
    if evaluates(host, between(op, a, b), ctx, out) {
        let node = BinaryOp { lhs: Box::new(constant(a)), rhs: Box::new(constant(b)), op };
        let p = choose|p: Outcome| #[trigger]
            p.arises() && evaluates(host, *node.lhs, ctx, p) && match p.result {
                Err(_) => out == p,
                Ok(x) => exists|q: Outcome| #[trigger]
                    q.arises() && evaluates(host, *node.rhs, p.ctx, q) && match q.result {
                        Err(_) => out == q,
                        Ok(y) => out.ctx == q.ctx && node.op.combines(host, x, y, out.result),
                    },
            };
        assert(p == left);
        let q = choose|q: Outcome| #[trigger]
            q.arises() && evaluates(host, *node.rhs, ctx, q) && match q.result {
                Err(_) => out == q,
                Ok(y) => out.ctx == q.ctx && node.op.combines(
                    host,
                    ValueView::Number(a),
                    y,
                    out.result,
                ),
            };
        assert(q == right);
    }
}

/// With a host whose sums are the same either way round, `a + b` and
/// `b + a` evaluate to the same, and leave the context as it is.
pub proof fn lemma_sum_commutes<H: Fn(Query) -> Number>(
    host: H,
    a: Number,
    b: Number,
    ctx: ContextView,
    out: Outcome,
)
    requires
        symmetric(host, Arithmetic::Add),
        evaluates(host, between(Operator::Add, a, b), ctx, out),
    ensures
        evaluates(host, between(Operator::Add, b, a), ctx, out),
        out.ctx == ctx,
        out.result matches Ok(ValueView::Number(n)) && answers(
            host,
            Query::Compute(Arithmetic::Add, a, b),
            n,
        ),
{
    lemma_between_numbers(host, Operator::Add, a, b, ctx, out);
    lemma_between_numbers(host, Operator::Add, b, a, ctx, out);
}

/// With a host whose products are the same either way round, `a * b` and
/// `b * a` evaluate to the same, and leave the context as it is.
pub proof fn lemma_product_commutes<H: Fn(Query) -> Number>(
    host: H,
    a: Number,
    b: Number,
    ctx: ContextView,
    out: Outcome,
)
    requires
        symmetric(host, Arithmetic::Multiply),
        evaluates(host, between(Operator::Mult, a, b), ctx, out),
    ensures
        evaluates(host, between(Operator::Mult, b, a), ctx, out),
        out.ctx == ctx,
        out.result matches Ok(ValueView::Number(n)) && answers(
            host,
            Query::Compute(Arithmetic::Multiply, a, b),
            n,
        ),
{
    lemma_between_numbers(host, Operator::Mult, a, b, ctx, out);
    lemma_between_numbers(host, Operator::Mult, b, a, ctx, out);
}

} // verus!
