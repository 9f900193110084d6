//! The virtual machine: an operand stack, a stack of call frames, the global
//! variables and the heap.
pub mod frame;
pub mod run;

use crate::code::helpers::be_u16;
use crate::compiler::ByteCode;
use crate::error::RuntimeError;
use crate::object::builtins::{optional_effect, Effect, EffectModel};
use crate::object::heap::{optional_value, Cell, Heap};
use crate::object::objects::{Closure, CompiledFunctionObj, FunctionModel};
use crate::object::{values_of, AllObjects, Value};
use crate::vm::frame::{frame_views, new_frame, Frame, FrameModel};
use vstd::prelude::*;

verus! {

/// The most values that the operand stack holds.
pub const STACK_SIZE: usize = 2048;

/// The most call frames that exist at a time.
pub const MAX_FRAMES: usize = 1024;

/// The most instructions that one call of `run` executes.
pub const MAX_STEPS: u64 = u64::MAX;

/// The virtual machine.
#[derive(Debug)]
pub struct VM {
    /// The constants of the program.
    pub constants: Vec<AllObjects>,
    /// The operands and results of the instructions.
    pub stack: Vec<AllObjects>,
    /// The global variables, by index.
    pub globals: Vec<AllObjects>,
    /// The arrays and hash maps that values refer to.
    pub heap: Heap,
    /// The value that the last pop instruction took from the stack.
    pub result: Option<AllObjects>,
    /// The call frames, the main frame first.
    pub frames: Vec<Frame>,
    /// The number of call frames.
    pub frames_index: usize,
    /// What a builtin function asked the host to do, until the host takes it.
    pub pending: Option<Effect>,
}

/// The state of the machine as a mathematical value.
pub struct Machine {
    pub constants: Seq<Value>,
    pub stack: Seq<Value>,
    pub globals: Seq<Value>,
    pub heap: Seq<Cell>,
    pub result: Option<Value>,
    pub frames: Seq<FrameModel>,
    pub pending: Option<EffectModel>,
}

impl Machine {
    /// The frame that is being executed.
    pub open spec fn frame(self) -> FrameModel {
        self.frames.last()
    }

    /// The instructions that are being executed.
    pub open spec fn code(self) -> Seq<u8> {
        self.frame().func.instructions
    }

    /// The offset of the next instruction.
    pub open spec fn ip(self) -> int {
        self.frame().ip as int
    }

    /// Whether the instruction pointer of the active frame is past the end of
    /// its instructions.
    pub open spec fn halted(self) -> bool {
        self.ip() >= self.code().len()
    }

    /// The machine with the instruction pointer of the active frame at `ip`.
    pub open spec fn jump(self, ip: usize) -> Machine {
        Machine {
            frames: self.frames.update(
                self.frames.len() - 1,
                FrameModel { ip, ..self.frame() },
            ),
            ..self
        }
    }

    /// The machine with the instruction pointer moved on by `n` bytes.
    pub open spec fn advance(self, n: int) -> Machine {
        self.jump((self.ip() + n) as usize)
    }

    /// The machine with `v` on top of the operand stack, where it has room.
    pub open spec fn push(self, v: Value) -> Result<Machine, RuntimeError> {
        if self.stack.len() >= STACK_SIZE {
            Err(RuntimeError::StackOverflow)
        } else {
            Ok(Machine { stack: self.stack.push(v), ..self })
        }
    }

    /// The machine without the `n` topmost values of the operand stack.
    pub open spec fn drop(self, n: int) -> Machine {
        Machine { stack: self.stack.subrange(0, self.stack.len() - n), ..self }
    }

    /// The value `depth` places below the top of the operand stack.
    pub open spec fn peek(self, depth: int) -> Value {
        self.stack[self.stack.len() - 1 - depth]
    }

    /// The two-byte operand that follows the opcode, if the instructions
    /// hold it.
    pub open spec fn operand16(self) -> Option<usize> {
        if self.ip() + 2 < self.code().len() {
            Some(be_u16(self.code()[self.ip() + 1], self.code()[self.ip() + 2]) as usize)
        } else {
            None
        }
    }

    /// The one-byte operand `at` bytes behind the opcode, if the instructions
    /// hold it.
    pub open spec fn operand8(self, at: int) -> Option<usize> {
        if self.ip() + at < self.code().len() {
            Some(self.code()[self.ip() + at] as usize)
        } else {
            None
        }
    }
}

/// The machine that is about to execute a program: its instructions in a
/// main frame without parameters or locals, empty stack, no result.
pub open spec fn initial_machine(
    instructions: Seq<u8>,
    constants: Seq<Value>,
    globals: Seq<Value>,
    heap: Seq<Cell>,
) -> Machine {
    Machine {
        constants,
        stack: Seq::empty(),
        globals,
        heap,
        result: None,
        frames: seq![
            new_frame(
                FunctionModel { instructions, num_args: 0, num_locals: 0 },
                Seq::empty(),
                Seq::empty(),
            ),
        ],
        pending: None,
    }
}

impl View for VM {
    type V = Machine;

    open spec fn view(&self) -> Machine {
        Machine {
            constants: values_of(self.constants@),
            stack: values_of(self.stack@),
            globals: values_of(self.globals@),
            heap: self.heap@,
            result: optional_value(self.result),
            frames: frame_views(self.frames@),
            pending: optional_effect(self.pending),
        }
    }
}

impl VM {
    /// There is a frame to execute, and the stacks are within their limits.
    pub open spec fn wf(&self) -> bool {
        &&& 1 <= self.frames@.len() <= MAX_FRAMES
        &&& self.frames_index == self.frames@.len()
        &&& self.stack@.len() <= STACK_SIZE
    }

    /// Whether the machine is well formed.
    pub fn is_well_formed(&self) -> (b: bool)
        ensures
            b == self.wf(),
    {
        1 <= self.frames.len() && self.frames.len() <= MAX_FRAMES && self.frames_index
            == self.frames.len() && self.stack.len() <= STACK_SIZE
    }

    /// Creates a machine that is about to execute the bytecode, with no
    /// global variable and an empty heap.
    pub fn new(bytecode: ByteCode) -> (vm: Self)
        ensures
            vm.wf(),
            vm.heap.wf(),
            vm@ == initial_machine(
                bytecode.instructions@,
                values_of(bytecode.constants@),
                Seq::empty(),
                Seq::empty(),
            ),
    {
        let globals: Vec<AllObjects> = Vec::new();
        assert(values_of(globals@) =~= Seq::empty());
        Self::new_with_global_store(bytecode, globals, Heap::new())
    }

    /// Creates a machine that is about to execute the bytecode, with global
    /// variables and the heap that their values refer to as an earlier
    /// machine left them.
    pub fn new_with_global_store(bytecode: ByteCode, s: Vec<AllObjects>, heap: Heap) -> (vm: Self)
        ensures
            vm.wf(),
            heap.wf() ==> vm.heap.wf(),
            vm@ == initial_machine(
                bytecode.instructions@,
                values_of(bytecode.constants@),
                values_of(s@),
                heap@,
            ),
    {
        let main_fn = CompiledFunctionObj::new(bytecode.instructions, 0, 0);
        let arguments: Vec<AllObjects> = Vec::new();
        let closure = Closure::new(main_fn);
        assert(values_of(arguments@) =~= Seq::empty());
        assert(values_of(closure.free@) =~= Seq::empty());
        let main_frame = Frame::new(closure, arguments);
        let mut frames: Vec<Frame> = Vec::new();
        frames.push(main_frame);
        let vm = VM {
            constants: bytecode.constants,
            stack: Vec::new(),
            globals: s,
            heap,
            result: None,
            frames,
            frames_index: 1,
            pending: None,
        };
        assert(vm@.frames =~= initial_machine(
            bytecode.instructions@,
            values_of(bytecode.constants@),
            values_of(s@),
            heap@,
        ).frames);
        assert(vm@.stack =~= Seq::empty());
        vm
    }

    /// The value that the last pop instruction took from the stack: the
    /// value of the last expression statement that was executed.
    pub fn result(&self) -> (r: Option<&AllObjects>)
        ensures
            match r {
                Some(v) => self@.result == Some(v@),
                None => self@.result is None,
            },
    {
        self.result.as_ref()
    }

    /// Takes what a builtin function asked the host to do.
    pub fn take_effect(&mut self) -> (e: Option<Effect>)
        ensures
            optional_effect(e) == old(self)@.pending,
            final(self)@ == (Machine { pending: None, ..old(self)@ }),
            old(self).wf() ==> final(self).wf(),
    {
        self.pending.take()
    }

    /// Whether the active frame has no instruction left to execute.
    pub fn halted(&self) -> (b: bool)
        requires
            self.wf(),
        ensures
            b == self@.halted(),
    {
        let frame = &self.frames[self.frames_index - 1];
        frame.ip >= frame.closure.func.instructions.len()
    }

    /// Pushes the value on to the operand stack.
    pub fn push(&mut self, val: AllObjects) -> (r: Result<(), RuntimeError>)
        requires
            old(self).wf(),
        ensures
            final(self).wf(),
            match old(self)@.push(val@) {
                Ok(m) => r is Ok && final(self)@ == m,
                Err(e) => r == Err::<(), RuntimeError>(e) && final(self)@ == old(self)@,
            },
    {
        if self.stack.len() >= STACK_SIZE {
            return Err(RuntimeError::StackOverflow);
        }
        self.stack.push(val);
        assert(final(self)@.stack =~= old(self)@.stack.push(val@));
        Ok(())
    }

    /// Removes the topmost value from the operand stack and returns it.
    pub fn pop(&mut self) -> (r: Result<AllObjects, RuntimeError>)
        requires
            old(self).wf(),
        ensures
            final(self).wf(),
            match r {
                Ok(v) => old(self)@.stack.len() > 0 && v@ == old(self)@.peek(0) && final(self)@
                    == old(self)@.drop(1),
                Err(e) => old(self)@.stack.len() == 0 && e == RuntimeError::StackEmpty
                    && final(self)@ == old(self)@,
            },
    {
        match self.stack.pop() {
            Some(v) => {
                assert(final(self)@.stack =~= old(self)@.drop(1).stack);
                Ok(v)
            },
            None => Err(RuntimeError::StackEmpty),
        }
    }

    /// Removes the `n` topmost values from the operand stack and returns
    /// them, the lowest first.
    pub fn pop_many(&mut self, n: usize) -> (r: Result<Vec<AllObjects>, RuntimeError>)
        requires
            old(self).wf(),
        ensures
            final(self).wf(),
            match r {
                Ok(values) => n <= old(self)@.stack.len() && values_of(values@) == old(
                    self,
                )@.stack.subrange(old(self)@.stack.len() - n, old(self)@.stack.len() as int)
                    && final(self)@ == old(self)@.drop(n as int),
                Err(e) => n > old(self)@.stack.len() && e == RuntimeError::StackEmpty
                    && final(self)@ == old(self)@,
            },
    {
        if n > self.stack.len() {
            return Err(RuntimeError::StackEmpty);
        }
        let at: usize = self.stack.len() - n;
        let values = self.stack.split_off(at);
        assert(final(self)@.stack =~= old(self)@.drop(n as int).stack);
        assert(values_of(values@) =~= old(self)@.stack.subrange(
            old(self)@.stack.len() - n,
            old(self)@.stack.len() as int,
        ));
        Ok(values)
    }

    /// Copies of the `n` topmost values of the operand stack, the lowest
    /// first.
    pub fn peek_many(&self, n: usize) -> (r: Result<Vec<AllObjects>, RuntimeError>)
        ensures
            match r {
                Ok(values) => n <= self@.stack.len() && values_of(values@)
                    == self@.stack.subrange(self@.stack.len() - n, self@.stack.len() as int),
                Err(e) => n > self@.stack.len() && e == RuntimeError::StackEmpty,
            },
    {
        let len: usize = self.stack.len();
        if n > len {
            return Err(RuntimeError::StackEmpty);
        }
        let mut out: Vec<AllObjects> = Vec::new();
        let mut i: usize = len - n;
        while i < len
            invariant
                len == self.stack@.len(),
                n <= len,
                len - n <= i <= len,
                out@.len() == i - (len - n),
                forall|j: int| 0 <= j < out@.len() ==> out@[j]@ == self.stack@[len - n + j]@,
            decreases len - i,
        {
            out.push(self.stack[i].duplicate());
            i += 1;
        }
        assert(values_of(out@) =~= self@.stack.subrange(
            self@.stack.len() - n,
            self@.stack.len() as int,
        ));
        Ok(out)
    }

    /// Removes the `n` topmost values from the operand stack.
    pub fn drop_top(&mut self, n: usize)
        requires
            old(self).wf(),
            n <= old(self)@.stack.len(),
        ensures
            final(self).wf(),
            final(self)@ == old(self)@.drop(n as int),
    {
        let at: usize = self.stack.len() - n;
        self.stack.truncate(at);
        assert(final(self)@.stack =~= old(self)@.drop(n as int).stack);
    }

    /// The frame that is being executed.
    pub fn current_frame(&self) -> (f: &Frame)
        requires
            self.wf(),
        ensures
            f@ == self@.frame(),
    {
        &self.frames[self.frames_index - 1]
    }

    /// Sets the instruction pointer of the active frame.
    pub fn set_ip(&mut self, ip: usize)
        requires
            old(self).wf(),
        ensures
            final(self).wf(),
            final(self)@ == old(self)@.jump(ip),
    {
        let top: usize = self.frames_index - 1;
        self.frames[top].ip = ip;
        assert(final(self)@.frames =~= old(self)@.jump(ip).frames);
    }

    /// Makes `f` the active frame.
    pub fn push_frame(&mut self, f: Frame)
        requires
            old(self).wf(),
            old(self).frames@.len() < MAX_FRAMES,
        ensures
            final(self).wf(),
            final(self)@ == (Machine { frames: old(self)@.frames.push(f@), ..old(self)@ }),
    {
        self.frames.push(f);
        self.frames_index += 1;
        assert(final(self)@.frames =~= old(self)@.frames.push(f@));
    }

    /// Removes the active frame and returns it; the frame that called it
    /// becomes active again.
    pub fn pop_frame(&mut self) -> (f: Frame)
        requires
            old(self).wf(),
            old(self).frames@.len() >= 2,
        ensures
            final(self).wf(),
            f@ == old(self)@.frame(),
            final(self)@ == (Machine { frames: old(self)@.frames.drop_last(), ..old(self)@ }),
    {
        self.frames_index -= 1;
        let f = self.frames.pop().unwrap();
        assert(final(self)@.frames =~= old(self)@.frames.drop_last());
        f
    }

    /// The two-byte operand of the instruction that is executed next.
    pub fn read_operand16(&self) -> (r: Option<usize>)
        requires
            self.wf(),
        ensures
            r == self@.operand16(),
    {
        let frame = &self.frames[self.frames_index - 1];
        let code = &frame.closure.func.instructions;
        let len: usize = code.len();
        if len >= 3 && frame.ip < len - 2 {
            Some(
                crate::code::helpers::read_u16(
                    vstd::slice::slice_subrange(code.as_slice(), frame.ip + 1, len),
                ),
            )
        } else {
            None
        }
    }

    /// The one-byte operand `at` bytes behind the opcode of the instruction
    /// that is executed next.
    pub fn read_operand8(&self, at: usize) -> (r: Option<usize>)
        requires
            self.wf(),
            1 <= at <= 3,
        ensures
            r == self@.operand8(at as int),
    {
        let frame = &self.frames[self.frames_index - 1];
        let code = &frame.closure.func.instructions;
        let len: usize = code.len();
        if len > at && frame.ip < len - at {
            Some(
                crate::code::helpers::read_u8(
                    vstd::slice::slice_subrange(code.as_slice(), frame.ip + at, len),
                ),
            )
        } else {
            None
        }
    }
}

} // verus!
