//! Taking a text through lexer, parser and executor.
//!
//! A session takes text a piece at a time, as a prompt does: each piece is
//! split into tokens and parsed behind the statements that are there, and
//! the program is then run on from where it stood. Reading the pieces and
//! showing what comes of them is left to the caller.

use vstd::prelude::*;
use crate::error::ExecError;
use crate::executor::{execute, Landing, Program, ProgramView};
use crate::host::{reliable, Query};
use crate::lexer::{lemma_token_count, lex, token_views, tokenize, LexError, Token, TokenView};
use crate::number::Number;
use crate::parser::{parse, program, ParserError};

verus! {

/// What came of a piece of text.
#[derive(Debug)]
pub enum Reply {
    /// The text could not be split into tokens; nothing else was done.
    Lex(LexError),
    /// The tokens were no program. The statements before the error were
    /// taken in, and nothing was run.
    Parse(ParserError),
    /// The statements were taken in, and the run waits for an empty line.
    Paused,
    /// The run failed, and the program counter is back where the run began.
    Failed(ExecError),
    /// The run stopped before the end, with its steps used up.
    Suspended,
    /// The run reached the end of the statements.
    Finished,
}

/// A program that grows by pieces of text, whether its run waits for an
/// empty line, and where the program counter was when the last piece of
/// text was taken in.
pub struct Session {
    pub program: Program,
    pub repl_paused: bool,
    pub pc_backup: usize,
}

/// Whether the token opens a block, so that a prompt waits for the lines
/// that follow before it runs anything.
pub open spec fn pausable(token: TokenView) -> bool {
    token is If || token is For || token is While || token is Repeat
}

/// The tokens of an empty line.
pub open spec fn empty_line(tokens: Seq<TokenView>) -> bool {
    tokens.len() == 2 && tokens[0] is EndOfLine && tokens[1] is EndOfInput
}

/// Whether a prompt waits after a piece of text with these tokens: it
/// starts to wait at a token that opens a block, and goes on waiting up to
/// an empty line.
pub open spec fn pauses(paused: bool, tokens: Seq<TokenView>) -> bool {
    if paused {
        !empty_line(tokens)
    } else {
        exists|i: int| 0 <= i < tokens.len() && pausable(#[trigger] tokens[i])
    }
}

/// Whether `reply` and `after` are what a run of at most `limit` steps from
/// `before` may come to. A run that fails puts the program counter at
/// `restore`, where the run, or the first of the runs that it continues,
/// began.
pub open spec fn run_comes_to<H: Fn(Query) -> Number>(
    host: H,
    before: ProgramView,
    limit: nat,
    restore: int,
    reply: Reply,
    after: ProgramView,
) -> bool {
    exists|landing: Landing| #[trigger]
        before.runs(host, limit, landing) && match landing.result {
            Ok(()) => after == landing.state && if after.over() {
                reply is Finished
            } else {
                reply is Suspended
            },
            Err(e) => after == landing.state.at(restore) && reply == Reply::Failed(e),
        }
}

/// Whether a piece of text with these tokens keeps a session waiting.
fn keeps_waiting(paused: bool, tokens: &Vec<Token>) -> (r: bool)
    ensures
        r == pauses(paused, token_views(tokens@)),
{
    let ghost views = token_views(tokens@);
    if paused {
        // an empty line ends the wait
        let empty = tokens.len() == 2 && tokens[0].is(&Token::EndOfLine) && tokens[1].is(
            &Token::EndOfInput,
        );
        !empty
    } else {
        let mut i: usize = 0;
        while i < tokens.len()
            invariant
                i <= tokens.len(),
                views == token_views(tokens@),
                forall|j: int| 0 <= j < i ==> !pausable(#[trigger] views[j]),
            decreases tokens.len() - i,
        {
            let token = &tokens[i];
            if token.is(&Token::If) || token.is(&Token::For) || token.is(&Token::While)
                || token.is(&Token::Repeat) {
                assert(pausable(views[i as int]));
                return true;
            }
            i += 1;
        }
        false
    }
}

/// Runs the program on for at most `limit` steps. If the run fails, the
/// program counter is put back where it was.
pub fn run<H: Fn(Query) -> Number>(program: &mut Program, host: &H, limit: u64) -> (reply: Reply)
    requires
        old(program).wf(),
        reliable(*host),
    ensures
        final(program).wf(),
        run_comes_to(
            *host,
            old(program)@,
            limit as nat,
            old(program)@.pc,
            reply,
            final(program)@,
        ),
{
    // the program counter as it is before the run, to go back to
    let pc_backup = program.pc();
    resume(program, host, limit, pc_backup)
}

/// Runs a program on whose run was cut short, for at most `limit` steps
/// more. If the run fails, the program counter is put at `pc_backup`, where
/// it was before the first of these runs.
pub fn resume<H: Fn(Query) -> Number>(
    program: &mut Program,
    host: &H,
    limit: u64,
    pc_backup: usize,
) -> (reply: Reply)
    requires
        old(program).wf(),
        reliable(*host),
    ensures
        final(program).wf(),
        run_comes_to(
            *host,
            old(program)@,
            limit as nat,
            pc_backup as int,
            reply,
            final(program)@,
        ),
{
    match execute(program, host, limit) {
        Err(err) => {
            program.set_pc(pc_backup);
            Reply::Failed(err)
        },
        Ok(()) => {
            if program.over() {
                Reply::Finished
            } else {
                Reply::Suspended
            }
        },
    }
}

/// Whether `reply`, `after` and `waiting` are what a session may come to
/// that stood at `before`, waiting or not as `paused` says, and took `input`
/// in.
pub open spec fn interprets<H: Fn(Query) -> Number>(
    host: H,
    before: ProgramView,
    paused: bool,
    repl: bool,
    input: Seq<char>,
    limit: nat,
    reply: Reply,
    after: ProgramView,
    waiting: bool,
) -> bool {
    match tokenize(input) {
        Err(piece) => {
            &&& reply matches Reply::Lex(LexError::UnknownToken(found)) && found@ == piece
            &&& after == before
            &&& waiting == paused
        },
        Ok(views) => exists|tokens: Seq<Token>| #[trigger]
            token_views(tokens) == views && {
                let parsed = program(tokens);
                let taken = ProgramView { statements: before.statements + parsed.0, ..before };
                &&& waiting == if repl {
                    pauses(paused, views)
                } else {
                    paused
                }
                &&& match parsed.1 {
                    Err(e) => reply == Reply::Parse(e) && after == taken,
                    Ok(()) => if waiting {
                        reply is Paused && after == taken
                    } else {
                        run_comes_to(host, taken, limit, before.pc, reply, after)
                    },
                }
            },
    }
}

impl Session {
    /// A session with no statements yet.
    pub fn new() -> (session: Session)
        ensures
            session.program.wf(),
            session.program@ == ProgramView::fresh(),
            !session.repl_paused,
            session.pc_backup == 0,
    {
        Session { program: Program::new(), repl_paused: false, pc_backup: 0 }
    }

    /// Takes a piece of text in: splits it into tokens, parses them behind
    /// the statements that are there, and runs the program on for at most
    /// `limit` steps. With `repl` set, nothing is run while the session
    /// waits for an empty line (see [`pauses`]).
    pub fn interpret<H: Fn(Query) -> Number>(
        &mut self,
        repl: bool,
        input: &String,
        host: &H,
        limit: u64,
    ) -> (reply: Reply)
        requires
            old(self).program.wf(),
            reliable(*host),
            old(self).program@.statements.len() + input@.len() + 2 < usize::MAX,
        ensures
            final(self).program.wf(),
            interprets(
                *host,
                old(self).program@,
                old(self).repl_paused,
                repl,
                input@,
                limit as nat,
                reply,
                final(self).program@,
                final(self).repl_paused,
            ),
            final(self).pc_backup == old(self).program@.pc,
    {
        // the program counter as it is before anything is run, to go back to
        self.pc_backup = self.program.pc();
        // lex the input
        let tokens = match lex(input) {
            Ok(tokens) => tokens,
            Err(err) => {
                return Reply::Lex(err);
            },
        };
        proof {
            lemma_token_count(input@, 0, Seq::empty());
            assert(token_views(tokens@).len() == tokens@.len());
        }
        if repl {
            // an empty line ends the wait; a token that opens a block
            // begins it
            self.repl_paused = keeps_waiting(self.repl_paused, &tokens);
        }
        // parse the line
        match parse(&tokens, &mut self.program) {
            Err(err) => {
                return Reply::Parse(err);
            },
            Ok(()) => {},
        }
        if self.repl_paused {
            return Reply::Paused;
        }
        run(&mut self.program, host, limit)
    }

    /// Runs the program on after a run that was cut short, for at most
    /// `limit` steps more. If the run fails, the program counter is put back
    /// where it was when the last piece of text was taken in.
    pub fn resume<H: Fn(Query) -> Number>(&mut self, host: &H, limit: u64) -> (reply: Reply)
        requires
            old(self).program.wf(),
            reliable(*host),
        ensures
            final(self).program.wf(),
            run_comes_to(
                *host,
                old(self).program@,
                limit as nat,
                old(self).pc_backup as int,
                reply,
                final(self).program@,
            ),
            final(self).pc_backup == old(self).pc_backup,
            final(self).repl_paused == old(self).repl_paused,
    {
        resume(&mut self.program, host, limit, self.pc_backup)
    }
}

/// Takes a whole text through lexer, parser and executor, with at most
/// `limit` steps of the run, and gives back the program as it then stands
/// with what came of it.
pub fn interpret_file<H: Fn(Query) -> Number>(file: &String, host: &H, limit: u64) -> (done: (
    Program,
    Reply,
))
    requires
        reliable(*host),
        file@.len() + 2 < usize::MAX,
    ensures
        done.0.wf(),
        interprets(
            *host,
            ProgramView::fresh(),
            false,
            false,
            file@,
            limit as nat,
            done.1,
            done.0@,
            false,
        ),
{
    let mut session = Session::new();
    let reply = session.interpret(false, file, host, limit);
    (session.program, reply)
}

} // verus!
