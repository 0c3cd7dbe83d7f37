use vstd::prelude::*;
use vstd::string::StringExecFns;
use crate::environment::Environment;
use crate::interpreter::{
    exec_stmts_v, out_view, step_view, Halt, Interpreter, StateV, StepV,
};
use crate::object::ObjectV;
use crate::parser::{p_program, Parser, ParserError};
use crate::scanner::{diags_view, scan_spec, Diagnostic, Scanner};
use crate::token::toks_of;

verus! {

/// Why a run produced no complete execution: the parse failed, or execution
/// stopped at a runtime error or an exhausted step budget.
#[derive(Debug)]
pub enum RunError {
    ParseFailed(ParserError),
    Interrupted(Halt),
}

/// The state a batch run leaves behind: what a program printed, the lexical
/// diagnostics that were reported along the way, and whether anything at all
/// went wrong.
#[derive(Debug)]
pub struct Lox {
    pub had_error: bool,
    pub diagnostics: Vec<Diagnostic>,
    pub output: Vec<String>,
}

impl Default for Lox {
    fn default() -> (r: Self)
        ensures
            !r.had_error,
            r.diagnostics@.len() == 0,
            r.output@.len() == 0,
    {
        Lox { had_error: false, diagnostics: Vec::new(), output: Vec::new() }
    }
}

/// What running a source text under a step budget leaves behind: the
/// diagnostics of the scan, and then either a parse error (nothing printed),
/// or the printed lines and outcome of executing the parsed program from an
/// empty global scope.
pub open spec fn run_spec(src: Seq<char>, fuel: nat) -> (
    Seq<(nat, Seq<char>)>,
    Result<(StepV, StateV), crate::parser::PErrV>,
) {
    let (ts, ds) = scan_spec(src, 0, 0);
    match p_program(ts, 0) {
        Ok(prog) => {
            let st0 = StateV {
                env: seq![Seq::<(Seq<char>, ObjectV)>::empty()],
                out: Seq::empty(),
            };
            (ds, Ok(exec_stmts_v(prog, st0, fuel)))
        },
        Err(pe) => (ds, Err(pe)),
    }
}

impl Lox {
    /// Records one recoverable diagnostic and remembers that something went
    /// wrong.
    pub fn error(&mut self, line: usize, message: &str)
        ensures
            final(self).had_error,
            final(self).output == old(self).output,
            diags_view(final(self).diagnostics@) == diags_view(old(self).diagnostics@).push(
                (line as nat, message@),
            ),
    {
        self.report(line, message);
    }

    fn report(&mut self, line: usize, message: &str)
        ensures
            final(self).had_error,
            final(self).output == old(self).output,
            diags_view(final(self).diagnostics@) == diags_view(old(self).diagnostics@).push(
                (line as nat, message@),
            ),
    {
        let ghost d0 = diags_view(self.diagnostics@);
        self.diagnostics.push(Diagnostic { line, message: String::from_str(message) });
        self.had_error = true;
        proof {
            assert(diags_view(self.diagnostics@) =~= d0.push((line as nat, message@)));
        }
    }

    /// Runs a source text as one batch under a step budget: scans it
    /// (recording the scan's diagnostics), parses it, and executes the
    /// program against a fresh environment, exactly as `run_spec` describes.
    /// The lines the program printed are appended to `output`; the first
    /// parse error or runtime interruption ends the run.
    pub fn run(&mut self, content: String, fuel: u64) -> (r: Result<(), RunError>)
        requires
            old(self).diagnostics@.len() == 0,
            old(self).output@.len() == 0,
        ensures
            ({
                let (ds, outcome) = run_spec(content@, fuel as nat);
                &&& diags_view(final(self).diagnostics@) == ds
                &&& match r {
                    Ok(()) => {
                        &&& outcome matches Ok((sv, st2)) && sv is Done && out_view(
                            final(self).output,
                        ) == st2.out
                        &&& final(self).had_error == (old(self).had_error || ds.len() > 0)
                    },
                    Err(RunError::ParseFailed(pe)) => {
                        &&& outcome matches Err(pv) && pv == pe@
                        &&& final(self).output@.len() == 0
                        &&& final(self).had_error
                    },
                    Err(RunError::Interrupted(h)) => {
                        &&& outcome matches Ok((sv, st2)) && sv == step_view(
                            Err::<(), Halt>(h),
                        ) && out_view(final(self).output) == st2.out
                        &&& final(self).had_error
                    },
                }
            }),
    {
        let ghost ds0 = diags_view(self.diagnostics@);
        let mut scanner = Scanner::new(content.as_str());
        let _ = scanner.scan_tokens();
        // hand the scan's diagnostics to the collector
        let dn = scanner.diagnostics.len();
        let mut k: usize = 0;
        proof {
            assert(ds0 =~= Seq::<(nat, Seq<char>)>::empty());
            assert(diags_view(self.diagnostics@) =~= diags_view(scanner.diagnostics@).subrange(
                0,
                0,
            ));
        }
        while k < dn
            invariant
                k <= dn,
                dn == scanner.diagnostics@.len(),
                self.output == old(self).output,
                old(self).had_error || k > 0 ==> self.had_error,
                k == 0 ==> self.had_error == old(self).had_error,
                diags_view(self.diagnostics@) == diags_view(scanner.diagnostics@).subrange(
                    0,
                    k as int,
                ),
            decreases dn - k,
        {
            let line = scanner.diagnostics[k].line;
            self.error(line, scanner.diagnostics[k].message.as_str());
            proof {
                assert(diags_view(scanner.diagnostics@).subrange(0, k as int).push(
                    scanner.diagnostics@[k as int]@,
                ) =~= diags_view(scanner.diagnostics@).subrange(0, k + 1));
            }
            k = k + 1;
        }
        proof {
            assert(diags_view(scanner.diagnostics@).subrange(
                0,
                scanner.diagnostics@.len() as int,
            ) =~= diags_view(scanner.diagnostics@));
        }
        let mut parser = Parser::new(&scanner.tokens);
        let stmts = match parser.parse() {
            Ok(stmts) => stmts,
            Err(pe) => {
                self.had_error = true;
                return Err(RunError::ParseFailed(pe));
            },
        };
        let enviroment = Environment::new();
        let mut interpreter = Interpreter::new(enviroment);
        let res = interpreter.interpret(&stmts, fuel);
        self.output = interpreter.output;
        match res {
            Ok(()) => Ok(()),
            Err(h) => {
                self.had_error = true;
                Err(RunError::Interrupted(h))
            },
        }
    }
}

} // verus!

