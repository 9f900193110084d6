//! Call frames: one per function invocation.
use crate::code::Instructions;
use crate::object::objects::{Closure, FunctionModel, Null};
use crate::object::{values_of, AllObjects, Value};
use vstd::prelude::*;

verus! {

/// The state of one function invocation.
#[derive(Debug)]
pub struct Frame {
    /// The closure that is being executed.
    pub closure: Closure,
    /// The byte offset of the instruction that is executed next.
    pub ip: usize,
    /// The local variables, the arguments of the call first.
    pub locals: Vec<AllObjects>,
}

/// A call frame as a mathematical value.
pub struct FrameModel {
    pub func: FunctionModel,
    pub free: Seq<Value>,
    pub ip: usize,
    pub locals: Seq<Value>,
}

impl View for Frame {
    type V = FrameModel;

    open spec fn view(&self) -> FrameModel {
        FrameModel {
            func: self.closure.func@,
            free: values_of(self.closure.free@),
            ip: self.ip,
            locals: values_of(self.locals@),
        }
    }
}

/// The views of a sequence of frames.
pub open spec fn frame_views(frames: Seq<Frame>) -> Seq<FrameModel> {
    Seq::new(frames.len(), |i: int| frames[i]@)
}

/// The local slots of a new frame: the arguments, followed by null up to the
/// number of locals that the function needs.
pub open spec fn initial_locals(num_locals: usize, arguments: Seq<Value>) -> Seq<Value> {
    if arguments.len() >= num_locals {
        arguments
    } else {
        arguments + Seq::new((num_locals - arguments.len()) as nat, |i: int| Value::Null)
    }
}

/// The frame in which a call of a closure starts.
pub open spec fn new_frame(func: FunctionModel, free: Seq<Value>, arguments: Seq<Value>) -> FrameModel {
    FrameModel { func, free, ip: 0, locals: initial_locals(func.num_locals, arguments) }
}

impl Frame {
    /// Creates the frame for a call of `closure` with the given arguments.
    /// The arguments become the first locals; the other local slots of the
    /// function start as null.
    pub fn new(closure: Closure, arguments: Vec<AllObjects>) -> (f: Self)
        ensures
            f@ == new_frame(closure.func@, values_of(closure.free@), values_of(arguments@)),
    {
        let mut locals = arguments;
        let ghost given = values_of(locals@);
        let wanted: usize = closure.func.num_locals;
        assert(values_of(locals@) =~= given + Seq::new(0, |i: int| Value::Null));
        while locals.len() < wanted
            invariant
                wanted == closure.func.num_locals,
                given == values_of(arguments@),
                given.len() <= locals@.len(),
                locals@.len() <= wanted || locals@.len() == given.len(),
                values_of(locals@) == given + Seq::new(
                    (locals@.len() - given.len()) as nat,
                    |i: int| Value::Null,
                ),
            decreases wanted - locals@.len(),
        {
            let ghost before = locals@;
            locals.push(AllObjects::Null(Null));
            assert(values_of(locals@) =~= given + Seq::new(
                (locals@.len() - given.len()) as nat,
                |i: int| Value::Null,
            )) by {
                assert(values_of(locals@) =~= values_of(before).push(Value::Null));
            }
        }
        assert(values_of(locals@) =~= initial_locals(wanted, given));
        Frame { closure, ip: 0, locals }
    }

    /// The instructions of the function that the frame executes.
    pub fn instructions(&self) -> (ins: &Instructions)
        ensures
            ins@ == self@.func.instructions,
    {
        &self.closure.func.instructions
    }
}

} // verus!
