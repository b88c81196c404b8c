pub mod text;
pub mod table;
pub mod scanner;
pub mod expr;
pub mod stmt;
pub mod grammar;
pub mod parser;
pub mod literals;
pub mod numbering;
pub mod resolver;
pub mod value;
pub mod environment;
pub mod host;
pub mod model;
pub mod semantics;
pub mod invariants;
pub mod interpreter;

use vstd::prelude::*;
use vstd::string::*;
use crate::host::Host;
use crate::interpreter::{Interpreter, texts, unit_result};
use crate::model::{Answer, Oracle, Store};
use crate::parser::Parser;
use crate::resolver::Resolver;
use crate::scanner::Scanner;
use crate::semantics::{Outcome, told};
use crate::stmt::StmtView;

verus! {

/// The statements of a source text, or its first lexical error, or all
/// its syntax errors.
pub open spec fn syntax(source: Seq<char>) -> Result<Seq<StmtView>, Seq<char>> {
    match scanner::scan(source) {
        Err(message) => Err(message),
        Ok(tokens) => grammar::parse_result(tokens, 0, 0),
    }
}

/// The hop counts of a source text, or the first error that keeps it
/// from running.
pub open spec fn checked(source: Seq<char>) -> Result<Map<nat, nat>, Seq<char>> {
    match syntax(source) {
        Err(message) => Err(message),
        Ok(statements) => resolver::resolution(statements),
    }
}

/// How a source text runs from the state `st` with `fuel` steps: not at
/// all if it has an error that scanning, parsing or resolving finds;
/// else its statements run, with its hop counts, on a host that answers
/// as `a` says.
pub open spec fn runs(st: Store, source: Seq<char>, fuel: nat, a: Oracle) -> Outcome<()> {
    match checked(source) {
        Err(message) => semantics::failed(st, message, fuel),
        Ok(locals) => semantics::interpret(
            Store { locals, ..st },
            syntax(source)->Ok_0,
            0,
            fuel,
            a,
        ),
    }
}

/// Runs a source text on an interpreter: scans, parses and resolves it,
/// and, if all that went well, interprets it. What the program writes is
/// added to the interpreter's output.
pub fn run<H: Host>(interpreter: &mut Interpreter, host: &mut H, contents: &str) -> (r: Result<
    (),
    String,
>)
    requires
        old(interpreter).wf(),
        contents@.len() < usize::MAX,
    ensures
        final(interpreter).wf(),
        checked(contents@) is Err ==> *final(interpreter) == *old(interpreter),
        final(interpreter).log@.len() >= old(interpreter).log@.len(),
        forall|a: Oracle| #[trigger]
            told(a, final(interpreter).log@, old(interpreter).log@.len()) ==> runs(
                old(interpreter)@,
                contents@,
                old(interpreter).fuel as nat,
                a,
            ) == final(interpreter).gave(unit_result(r)),
{
    let mut scanner = Scanner::new(contents);
    let tokens = scanner.scan_tokens()?;
    proof {
        parser::lemma_scanned_tokens_ok(contents@);
    }
    let mut parser = Parser::new(tokens);
    let stmts = parser.parse()?;
    let resolver = Resolver::new();
    let locals = resolver.resolve(&stmts)?;
    interpreter.resolve(locals);
    interpreter.interpret(host, &stmts)
}

/// Whether a source text, run from the state in which every program
/// starts on a host that gave the answers `log`, ends with `r`: with what
/// it wrote, or with its error.
pub open spec fn ends_with(log: Seq<Answer>, source: Seq<char>, r: Result<Vec<String>, String>) -> bool {
    forall|a: Oracle| #[trigger]
        told(a, log, 0) ==> {
            let o = runs(model::initial(), source, u64::MAX as nat, a);
            match r {
                Ok(written) => o.result is Ok && texts(written@) == o.store.output,
                Err(message) => o.result == Err::<(), Seq<char>>(message@),
            }
        }
}

/// Runs a source text on a new interpreter, and gives what it wrote. The
/// program runs as `runs` says from the state in which every program
/// starts, on a host that answers as the host at hand did.
pub fn run_string<H: Host>(host: &mut H, contents: &str) -> (r: Result<Vec<String>, String>)
    requires
        contents@.len() < usize::MAX,
    ensures
        exists|log: Seq<Answer>| #[trigger] ends_with(log, contents@, r),
{
    let mut interpreter = Interpreter::new();
    let result = run(&mut interpreter, host, contents);
    let ghost log = interpreter.log@;
    let r = match result {
        Ok(()) => Ok(interpreter.output),
        Err(message) => Err(message),
    };
    assert(ends_with(log, contents@, r));
    r
}

} // verus!
