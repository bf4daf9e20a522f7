//! A small dynamically typed scripting language: scanner, parser, resolver
//! and a resumable evaluator whose arithmetic and output are performed by
//! the embedding program.

pub mod text;
pub mod number;
pub mod list;
pub mod dictionary;
pub mod scanner;
pub mod expr;
pub mod stmt;
pub mod environments;
pub mod interpreter;
pub mod parser;
pub mod resolver;
pub mod soundness;
pub mod agreement;
pub mod fitting;

use vstd::prelude::*;
use crate::fitting::{loaded_agrees, more_records_agree, resolved_program_fits};
use crate::interpreter::{Interpreter, Machine, loaded};
use crate::number::Number;
use crate::parser::{ParseError, Parser, Source, parse, parse_report, well_terminated};
use crate::resolver::{Bindings, ResolutionError, Resolver, resolution_error_text, resolve_program};
use crate::scanner::{
    LexError, Scanner, Token, TokenType, attach_numbers, lex_report, models, numbers_keep_the_types, scan,
    scan_ends_with_the_end_marker, with_numbers,
};

verus! {

/// Why a program was not started.
#[derive(Debug)]
pub enum Failure {
    /// The source holds lexical errors.
    Lexical(Vec<LexError>),
    /// The numbers handed in are not one for each number literal.
    Numbers,
    /// The tokens do not end with the end marker, or there are too many
    /// of them to number their nodes.
    Unterminated,
    /// The tokens hold syntax errors.
    Syntax(Vec<ParseError>),
    /// Resolution failed.
    Resolution(ResolutionError),
}

/// The description of a failure: the messages of its errors.
pub open spec fn failure_text(f: Failure) -> Seq<char> {
    match f {
        Failure::Lexical(errors) => lex_report(errors@),
        Failure::Numbers => "The numbers do not match the number literals"@,
        Failure::Unterminated => "The tokens do not end with the end marker"@,
        Failure::Syntax(errors) => parse_report(errors@),
        Failure::Resolution(e) => resolution_error_text(e),
    }
}

impl Failure {
    pub fn message(&self) -> (r: String)
        ensures
            r@ == failure_text(*self),
    {
        match self {
            Failure::Lexical(errors) => LexError::report(errors),
            Failure::Numbers => String::from_str("The numbers do not match the number literals"),
            Failure::Unterminated => String::from_str("The tokens do not end with the end marker"),
            Failure::Syntax(errors) => ParseError::report(errors),
            Failure::Resolution(e) => e.message(),
        }
    }
}

/// The state at which resolution of a program begins: no scope is open,
/// and the distances recorded so far are those of the machine.
pub open spec fn unresolved(m: Machine) -> Bindings {
    Bindings { scopes: Seq::empty(), locals: m.locals, error: None }
}

/// The machine with other distances recorded.
pub open spec fn rebound(m: Machine, locals: Map<usize, usize>) -> Machine {
    Machine { mode: m.mode, kont: m.kont, scopes: m.scopes, locals }
}

/// Whether `r` and the machine `after` are what comes of parsing
/// `tokens`, resolving the program and beginning a run of it in the
/// machine `before`.
pub open spec fn started(before: Machine, tokens: Seq<Token>, first_id: usize, r: Result<(), Failure>, after: Machine) -> bool {
    let src = Source { tokens, base: first_id };
    let program = parse(src);
    let resolution = resolve_program(unresolved(before), program.stmts);
    if !well_terminated(src) {
        r == Err::<(), Failure>(Failure::Unterminated) && after == before
    } else if program.errors.len() > 0 {
        r matches Err(Failure::Syntax(errors)) && errors@ == program.errors && after == before
    } else {
        match resolution.error {
            Some(e) => r == Err::<(), Failure>(Failure::Resolution(e)) && after == rebound(before, resolution.locals),
            None => r is Ok && after == loaded(rebound(before, resolution.locals), program.stmts),
        }
    }
}

/// Parses `tokens`, resolves the program and begins a run of it in the
/// interpreter; the run is then taken step by step. The nodes of the
/// program get identities that the interpreter sets aside for them, so
/// that they are told from the nodes of every program run before. On a
/// syntax error the state stays as it is; a resolution error leaves
/// behind the distances recorded up to it. A consistent interpreter
/// stays consistent: the run that is begun will not fail for an
/// inconsistency.
pub fn run(interpreter: &mut Interpreter, tokens: Vec<Token>) -> (r: Result<(), Failure>)
    requires
        old(interpreter).wf(),
    ensures
        final(interpreter).wf(),
        started(old(interpreter)@, tokens@, old(interpreter).limit() as usize, r, final(interpreter)@),
        old(interpreter).consistent() ==> final(interpreter).consistent(),
        final(interpreter).limit() == if r matches Err(Failure::Unterminated) {
            old(interpreter).limit()
        } else {
            old(interpreter).limit() + tokens@.len()
        },
{
    let ghost before = interpreter@;
    let ghost limit = interpreter.limit();
    proof {
        interpreter.limit_is_counted();
        interpreter.consistent_means();
    }
    let n = tokens.len();
    if n == 0 {
        return Err(Failure::Unterminated);
    }
    match tokens[n - 1].token_type {
        TokenType::Eof => {},
        _ => {
            return Err(Failure::Unterminated);
        },
    }
    let first_id = match interpreter.reserve(n) {
        Some(first_id) => first_id,
        None => {
            return Err(Failure::Unterminated);
        },
    };
    let ghost more = interpreter.limit();
    proof {
        interpreter.limit_is_counted();
        assert(tokens@.last() == tokens@[n - 1]);
    }
    let mut parser = Parser::numbered(tokens, first_id);
    let stmts = match parser.parse() {
        Ok(stmts) => stmts,
        Err(errors) => {
            return Err(Failure::Syntax(errors));
        },
    };
    proof {
        if old(interpreter).consistent() {
            resolved_program_fits(before, limit, stmts@, more);
            let r = resolve_program(unresolved(before), stmts@);
            more_records_agree(before, limit, r.locals, more);
            if r.error is None {
                loaded_agrees(rebound(before, r.locals), stmts@, more);
            }
        }
    }
    let mut resolver = Resolver::new();
    match resolver.resolve_many(&stmts, interpreter) {
        Ok(()) => {},
        Err(e) => {
            proof {
                interpreter.consistent_means();
            }
            return Err(Failure::Resolution(e));
        },
    }
    interpreter.interpret(stmts);
    proof {
        interpreter.consistent_means();
    }
    Ok(())
}

/// Scans `contents`, gives each number literal its number from `numbers`
/// in order, and begins a run of the program in a new interpreter.
pub fn run_string(contents: &str, numbers: &Vec<Number>) -> (r: Result<Interpreter, Failure>)
    ensures
        !(r matches Err(Failure::Unterminated)),
        r matches Ok(interpreter) ==> interpreter.consistent(),
        ({
            let lexed = scan(contents@);
            if lexed.errors.len() > 0 {
                r matches Err(Failure::Lexical(errors)) && errors@ == lexed.errors
            } else {
                match with_numbers(lexed.tokens, numbers@) {
                    None => r matches Err(Failure::Numbers),
                    Some(numbered) => exists|tokens: Seq<Token>|
                        {
                            &&& #[trigger] models(tokens) == numbered
                            &&& match r {
                                Ok(interpreter) => interpreter.wf() && started(
                                    new_machine(),
                                    tokens,
                                    0,
                                    Ok(()),
                                    interpreter@,
                                ),
                                Err(f) => exists|after: Machine| #[trigger]
                                    started(new_machine(), tokens, 0, Err(f), after),
                            }
                        },
                }
            }
        }),
{
    let mut scanner = Scanner::new(contents);
    let tokens = match scanner.scan_tokens() {
        Ok(tokens) => tokens,
        Err(errors) => {
            return Err(Failure::Lexical(errors));
        },
    };
    proof {
        assert(models(Seq::<Token>::empty()) + scan(contents@).tokens =~= scan(contents@).tokens);
    }
    let tokens = match attach_numbers(tokens, numbers) {
        Some(tokens) => tokens,
        None => {
            return Err(Failure::Numbers);
        },
    };
    let ghost given = tokens@;
    proof {
        scan_ends_with_the_end_marker(contents@, 0, 1);
        numbers_keep_the_types(scan(contents@).tokens, numbers@);
        assert(models(given).last() == given.last()@);
        assert(given.len() == tokens.len());
    }
    let mut interpreter = Interpreter::new();
    match run(&mut interpreter, tokens) {
        Ok(()) => {
            proof {
                assert(started(new_machine(), given, 0, Ok(()), interpreter@));
            }
            Ok(interpreter)
        },
        Err(f) => {
            proof {
                assert(started(new_machine(), given, 0, Err(f), interpreter@));
            }
            Err(f)
        },
    }
}

/// The machine of a new interpreter.
pub open spec fn new_machine() -> Machine {
    Machine {
        mode: crate::interpreter::Mode::Done,
        kont: Seq::empty(),
        scopes: seq![crate::environments::global_scope()],
        locals: Map::empty(),
    }
}

} // verus!
