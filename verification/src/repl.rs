//! What a read-evaluate-print loop does between reading a program and
//! showing its result. The loop itself belongs to the host: it reads and
//! parses, asks this module what to do next, and does it.
use crate::ast::AllNodes;
use crate::compiler::compile::compile_node;
use crate::compiler::symbol_table::{new_table, SymbolTable};
use crate::compiler::{failure_text, new_compiler, CompileFailure, Compiler};
use crate::error::{error_text, RuntimeError};
use crate::object::builtins::{Effect, EffectModel};
use crate::object::heap::{printed, Heap};
use crate::object::{duplicate_all, values_of, AllObjects};
use crate::vm::run::run_from;
use crate::vm::{initial_machine, Machine, MAX_STEPS, VM};
use vstd::prelude::*;
use vstd::string::StringExecFns;

verus! {

/// What the loop shows before it reads a line.
pub const PROMPT: &'static str = ">> ";

/// The face that is shown above the errors of the parser.
pub const MONKEY_FACE: &'static str = r#"
            __,__
   .--.  .-"     "-.  .--.
  / .. \/  .-. .-.  \/ .. \
 | |  '|  /   Y   \  |'  | |
 | \   \  \ 0 | 0 /  /   / |
  \ '- ,\.-"""""""-./, -' /
   ''-' /_   ^ ^   _\ '-''
       |  \._   _./  |
       \   \ '~' /   /
        '._ '-=-' _.'
           '-----'
"#;

/// The lines that list the first `k` errors of the parser.
pub open spec fn error_lines(errors: Seq<String>, k: nat) -> Seq<char>
    decreases k,
{
    if k == 0 || k > errors.len() {
        Seq::empty()
    } else {
        error_lines(errors, (k - 1) as nat) + "\t- "@ + errors[k - 1]@ + "\n"@
    }
}

/// The text that reports the errors of the parser.
pub open spec fn parser_errors_text(errors: Seq<String>) -> Seq<char> {
    MONKEY_FACE@ + "\n"@ + "Woops! We ran into some monkey business here 🥴\n"@
        + "parser Errors:\n"@ + error_lines(errors, errors.len())
}

/// Returns the text that reports the errors of the parser.
pub fn write_parser_errors(errors: &Vec<String>) -> (out: String)
    ensures
        out@ == parser_errors_text(errors@),
{
    let mut out = String::new();
    out.append(MONKEY_FACE);
    out.append("\n");
    out.append("Woops! We ran into some monkey business here 🥴\n");
    out.append("parser Errors:\n");
    let ghost start = out@;
    let mut i: usize = 0;
    while i < errors.len()
        invariant
            i <= errors@.len(),
            out@ == start + error_lines(errors@, i as nat),
        decreases errors@.len() - i,
    {
        out.append("\t- ");
        out.append(errors[i].as_str());
        out.append("\n");
        i += 1;
        assert(out@ =~= start + error_lines(errors@, i as nat));
    }
    assert(out@ =~= parser_errors_text(errors@));
    out
}

/// The text that reports a compile error.
pub open spec fn compile_report(e: CompileFailure) -> Seq<char> {
    "Woops! Compilation failed:\n "@ + failure_text(e) + "\n"@
}

/// The text that reports a runtime error.
pub open spec fn runtime_report(e: RuntimeError) -> Seq<char> {
    "Woops! Executing bytecode failed:\n "@ + error_text(e) + "\n"@
}

/// The text that reports the result of a program that ran to its end: the
/// result as it prints, on a line of its own.
pub open spec fn result_report(m: Machine) -> Seq<char> {
    match m.result {
        None => "Woops! Stack top is empty\n"@,
        Some(v) => match printed(m.heap, v) {
            Ok(text) => text + "\n"@,
            Err(e) => runtime_report(e),
        },
    }
}

/// What the host does next.
#[derive(Debug)]
pub enum Action {
    /// Write the text to the standard output and resume the machine.
    Print(String),
    /// Block for the given number of seconds and resume the machine.
    Sleep(u64),
    /// Write the text, which reports how the program ended, and stop.
    Done(String),
}

/// How the execution of a program starts.
#[derive(Debug)]
pub enum Start {
    /// The program does not compile; the text reports why.
    Failed(String),
    /// The machine that is about to run the program.
    Ready(VM),
}

/// Compiles a program for a machine of its own.
pub fn execute_program(program: &AllNodes) -> (r: Start)
    ensures
        match compile_node(new_compiler(new_table(), Seq::empty()), *program) {
            (m, Some(e)) => r matches Start::Failed(text) && text@ == compile_report(e),
            (m, None) => r matches Start::Ready(vm) && vm.wf() && vm.heap.wf() && vm@
                == initial_machine(
                m.scope().instructions,
                m.constants,
                Seq::empty(),
                Seq::empty(),
            ),
        },
{
    let mut comp = Compiler::new();
    match comp.compile(program) {
        Err(e) => {
            let mut out = String::new();
            out.append("Woops! Compilation failed:\n ");
            out.append(e.message().as_str());
            out.append("\n");
            assert(out@ =~= compile_report(e@));
            Start::Failed(out)
        },
        Ok(()) => Start::Ready(VM::new(comp.byte_code())),
    }
}

/// Runs the machine until the host has something to do: until a builtin
/// function asks for it, or until the program has ended or failed.
pub fn resume(vm: &mut VM) -> (a: Action)
    requires
        old(vm).wf(),
    ensures
        final(vm).wf(),
        old(vm).heap.wf() ==> final(vm).heap.wf(),
        match run_from(old(vm)@, MAX_STEPS as nat) {
            (m, Some(e)) => a matches Action::Done(text) && text@ == runtime_report(e) && final(
                vm)@ == m,
            (m, None) => match m.pending {
                Some(EffectModel::Print(wanted)) => a matches Action::Print(text) && text@
                    == wanted && final(vm)@ == (Machine { pending: None, ..m }),
                Some(EffectModel::Sleep(seconds)) => a matches Action::Sleep(n) && n == seconds
                    && final(vm)@ == (Machine { pending: None, ..m }),
                None => a matches Action::Done(text) && text@ == result_report(m) && final(vm)@
                    == m,
            },
        },
{
    match vm.run() {
        Err(e) => {
            let mut out = String::new();
            out.append("Woops! Executing bytecode failed:\n ");
            out.append(e.message().as_str());
            out.append("\n");
            assert(out@ =~= runtime_report(e));
            return Action::Done(out);
        },
        Ok(()) => {},
    }
    match vm.take_effect() {
        Some(Effect::Print(text)) => Action::Print(text),
        Some(Effect::Sleep(seconds)) => Action::Sleep(seconds),
        None => {
            let mut out = String::new();
            match vm.result() {
                None => {
                    out.append("Woops! Stack top is empty\n");
                },
                Some(value) => {
                    match vm.heap.inspect(value) {
                        Ok(text) => {
                            out.append(text.as_str());
                            out.append("\n");
                        },
                        Err(e) => {
                            out.append("Woops! Executing bytecode failed:\n ");
                            out.append(e.message().as_str());
                            out.append("\n");
                        },
                    }
                },
            }
            assert(out@ =~= result_report(vm@));
            Action::Done(out)
        },
    }
}

/// How the execution of a line starts, and the state that the next line
/// goes on from.
#[derive(Debug)]
pub enum Line {
    /// The line does not compile; the text reports why. The constants and
    /// the symbol table are as the failed compilation left them.
    Rejected {
        report: String,
        constants: Vec<AllObjects>,
        globals: Vec<AllObjects>,
        heap: Heap,
        symbol_table: SymbolTable,
    },
    /// The machine that is about to run the line, which holds the global
    /// variables and the heap.
    Accepted { vm: VM, constants: Vec<AllObjects>, symbol_table: SymbolTable },
}

/// Compiles a line that goes on from the constants, the global variables
/// with their heap, and the symbol table of the lines before it.
pub fn execute_line_for_repl(
    program: &AllNodes,
    constants: Vec<AllObjects>,
    globals: Vec<AllObjects>,
    heap: Heap,
    symbol_table: SymbolTable,
) -> (r: Line)
    requires
        symbol_table.wf(),
    ensures
        match compile_node(new_compiler(symbol_table@, values_of(constants@)), *program) {
            (m, Some(e)) => r matches Line::Rejected {
                report,
                constants: kept,
                globals: same_globals,
                heap: same_heap,
                symbol_table: table,
            } && report@ == compile_report(e) && values_of(kept@) == m.constants && values_of(
                same_globals@,
            ) == values_of(globals@) && same_heap@ == heap@ && table@ == m.symbols
                && table.wf(),
            (m, None) => r matches Line::Accepted { vm, constants: kept, symbol_table: table }
                && vm.wf() && (heap.wf() ==> vm.heap.wf()) && vm@ == initial_machine(
                m.scope().instructions,
                m.constants,
                values_of(globals@),
                heap@,
            ) && values_of(kept@) == m.constants && table@ == m.symbols && table.wf(),
        },
{
    let mut comp = Compiler::new_with_state(symbol_table, constants);
    let compiled = comp.compile(program);
    let kept = duplicate_all(&comp.constants);
    let mut table = SymbolTable::new();
    std::mem::swap(&mut table, &mut comp.symbol_table);
    match compiled {
        Err(e) => {
            let mut out = String::new();
            out.append("Woops! Compilation failed:\n ");
            out.append(e.message().as_str());
            out.append("\n");
            assert(out@ =~= compile_report(e@));
            Line::Rejected { report: out, constants: kept, globals, heap, symbol_table: table }
        },
        Ok(()) => {
            let vm = VM::new_with_global_store(comp.byte_code(), globals, heap);
            Line::Accepted { vm, constants: kept, symbol_table: table }
        },
    }
}

} // verus!
