//! The variants of a value, each as a type of its own.
use crate::code::Instructions;
use crate::error::RuntimeError;
use crate::object::heap::{Cell, Heap};
use crate::object::keys::distinct_plain_keys;
use crate::object::{duplicate_all, pairs_of, values_of, AllObjects, Object, Value};
use vstd::prelude::*;
use vstd::string::StringExecFns;

verus! {

/// A 64 bit integer.
#[derive(Debug)]
pub struct Integer {
    pub value: i64,
}

/// An immutable text.
#[derive(Debug)]
pub struct StringObj {
    pub value: String,
}

impl StringObj {
    /// A string value with the given text.
    pub fn new(v: &str) -> (s: Self)
        ensures
            s.value@ == v@,
    {
        StringObj { value: String::from_str(v) }
    }
}

/// A truth value.
#[derive(Debug)]
pub struct Boolean {
    pub value: bool,
}

/// The absence of a value.
#[derive(Debug)]
pub struct Null;

/// The instructions of a function, the number of its parameters and the
/// number of local slots that a call of it needs.
#[derive(Debug)]
pub struct CompiledFunctionObj {
    pub instructions: Instructions,
    pub num_args: usize,
    pub num_locals: usize,
}

/// A compiled function as a mathematical object.
pub struct FunctionModel {
    pub instructions: Seq<u8>,
    pub num_args: usize,
    pub num_locals: usize,
}

impl View for CompiledFunctionObj {
    type V = FunctionModel;

    open spec fn view(&self) -> FunctionModel {
        FunctionModel {
            instructions: self.instructions@,
            num_args: self.num_args,
            num_locals: self.num_locals,
        }
    }
}

/// A copy of a byte sequence.
pub fn duplicate_bytes(bytes: &Vec<u8>) -> (r: Vec<u8>)
    ensures
        r@ == bytes@,
{
    let mut out: Vec<u8> = Vec::new();
    let mut i: usize = 0;
    while i < bytes.len()
        invariant
            i <= bytes@.len(),
            out@ == bytes@.subrange(0, i as int),
        decreases bytes@.len() - i,
    {
        out.push(bytes[i]);
        assert(out@ =~= bytes@.subrange(0, i as int + 1));
        i += 1;
    }
    assert(out@ =~= bytes@);
    out
}

impl CompiledFunctionObj {
    /// A function with the given instructions, parameter count and number of
    /// local slots.
    pub fn new(instructions: Instructions, num_args: usize, num_locals: usize) -> (f: Self)
        ensures
            f@ == (FunctionModel { instructions: instructions@, num_args, num_locals }),
    {
        CompiledFunctionObj { instructions, num_args, num_locals }
    }

    /// A copy of the function.
    pub fn duplicate(&self) -> (f: Self)
        ensures
            f@ == self@,
    {
        CompiledFunctionObj {
            instructions: duplicate_bytes(&self.instructions),
            num_args: self.num_args,
            num_locals: self.num_locals,
        }
    }
}

/// The builtin functions.
#[derive(Clone, Copy, Debug, PartialEq, Eq, Structural)]
pub enum Builtin {
    Len,
    Print,
    Push,
    Pop,
    IsNull,
    Insert,
    Delete,
    Sleep,
}

impl Builtin {
    /// The name under which programs call the function.
    pub open spec fn spec_name(self) -> Seq<char> {
        match self {
            Builtin::Len => "len"@,
            Builtin::Print => "print"@,
            Builtin::Push => "push"@,
            Builtin::Pop => "pop"@,
            Builtin::IsNull => "is_null"@,
            Builtin::Insert => "insert"@,
            Builtin::Delete => "delete"@,
            Builtin::Sleep => "sleep"@,
        }
    }

    /// The name under which programs call the function.
    pub fn name(&self) -> (s: &'static str)
        ensures
            s@ == self.spec_name(),
    {
        match self {
            Builtin::Len => "len",
            Builtin::Print => "print",
            Builtin::Push => "push",
            Builtin::Pop => "pop",
            Builtin::IsNull => "is_null",
            Builtin::Insert => "insert",
            Builtin::Delete => "delete",
            Builtin::Sleep => "sleep",
        }
    }
}

/// The number of parameters that stands for "any number".
pub const VARIADIC: usize = usize::MAX;

/// A builtin function as a value: its name, the number of its parameters
/// (`VARIADIC` for any number), and the function itself.
#[derive(Debug)]
pub struct BuiltinFunctionObj {
    pub fn_name: String,
    pub num_params: usize,
    pub func: Builtin,
}

/// A builtin function value as a mathematical object.
pub struct BuiltinModel {
    pub name: Seq<char>,
    pub num_params: usize,
    pub func: Builtin,
}

impl View for BuiltinFunctionObj {
    type V = BuiltinModel;

    open spec fn view(&self) -> BuiltinModel {
        BuiltinModel { name: self.fn_name@, num_params: self.num_params, func: self.func }
    }
}

impl BuiltinFunctionObj {
    /// A builtin function value.
    pub fn new(fn_name: &str, num_params: usize, func: Builtin) -> (f: Self)
        ensures
            f@ == (BuiltinModel { name: fn_name@, num_params, func }),
    {
        BuiltinFunctionObj { fn_name: String::from_str(fn_name), num_params, func }
    }

    /// A copy of the value.
    pub fn duplicate(&self) -> (f: Self)
        ensures
            f@ == self@,
    {
        BuiltinFunctionObj {
            fn_name: self.fn_name.clone(),
            num_params: self.num_params,
            func: self.func,
        }
    }
}

/// A handle to an array of the heap.
#[derive(Debug)]
pub struct ArrayObj {
    pub id: usize,
}

impl ArrayObj {
    /// Puts a new array with the given elements on the heap and returns the
    /// handle to it.
    pub fn new(heap: &mut Heap, v: Vec<AllObjects>) -> (a: Self)
        ensures
            a.id == old(heap)@.len(),
            final(heap)@ == old(heap)@.push(Cell::Array(values_of(v@))),
            old(heap).wf() ==> final(heap).wf(),
    {
        let id = heap.allocate_array(v);
        ArrayObj { id }
    }
}

/// A handle to a hash map of the heap.
#[derive(Debug)]
pub struct HashMapObj {
    pub id: usize,
}

impl HashMapObj {
    /// Puts a new hash map with the given entries on the heap and returns the
    /// handle to it. The entries are taken as they are: the heap stays in
    /// order where they hold no plain key twice.
    pub fn new(heap: &mut Heap, map: Vec<(AllObjects, AllObjects)>) -> (h: Self)
        ensures
            h.id == old(heap)@.len(),
            final(heap)@ == old(heap)@.push(Cell::Hash(pairs_of(map@))),
            old(heap).wf() && distinct_plain_keys(pairs_of(map@)) ==> final(heap).wf(),
    {
        let id = heap.allocate_hash(map);
        HashMapObj { id }
    }
}

/// A compiled function together with the values of the variables that it
/// captured from the functions around it.
#[derive(Debug)]
pub struct Closure {
    pub func: CompiledFunctionObj,
    pub free: Vec<AllObjects>,
}

impl Closure {
    /// A closure that has captured nothing.
    pub fn new(func: CompiledFunctionObj) -> (c: Self)
        ensures
            c.func == func,
            c.free@ == Seq::<AllObjects>::empty(),
    {
        Closure { func, free: Vec::new() }
    }
}


impl Object for Integer {
    open spec fn as_value(&self) -> Value {
        Value::Integer(self.value)
    }

    fn inspect(&self, heap: &Heap) -> (r: Result<String, RuntimeError>) {
        heap.inspect(&AllObjects::Integer(Integer { value: self.value }))
    }
}

impl Object for StringObj {
    open spec fn as_value(&self) -> Value {
        Value::Str(self.value@)
    }

    fn inspect(&self, heap: &Heap) -> (r: Result<String, RuntimeError>) {
        heap.inspect(&AllObjects::StringObj(StringObj { value: self.value.clone() }))
    }
}

impl Object for Boolean {
    open spec fn as_value(&self) -> Value {
        Value::Boolean(self.value)
    }

    fn inspect(&self, heap: &Heap) -> (r: Result<String, RuntimeError>) {
        heap.inspect(&AllObjects::Boolean(Boolean { value: self.value }))
    }
}

impl Object for Null {
    open spec fn as_value(&self) -> Value {
        Value::Null
    }

    fn inspect(&self, heap: &Heap) -> (r: Result<String, RuntimeError>) {
        heap.inspect(&AllObjects::Null(Null))
    }
}

impl Object for CompiledFunctionObj {
    open spec fn as_value(&self) -> Value {
        Value::CompiledFunction(self@)
    }

    fn inspect(&self, heap: &Heap) -> (r: Result<String, RuntimeError>) {
        heap.inspect(&AllObjects::CompiledFunction(self.duplicate()))
    }
}

impl Object for BuiltinFunctionObj {
    open spec fn as_value(&self) -> Value {
        Value::BuiltinFunction(self@)
    }

    fn inspect(&self, heap: &Heap) -> (r: Result<String, RuntimeError>) {
        heap.inspect(&AllObjects::BuiltinFunction(self.duplicate()))
    }
}

impl Object for ArrayObj {
    open spec fn as_value(&self) -> Value {
        Value::Array(self.id)
    }

    fn inspect(&self, heap: &Heap) -> (r: Result<String, RuntimeError>) {
        heap.inspect(&AllObjects::ArrayObj(ArrayObj { id: self.id }))
    }
}

impl Object for HashMapObj {
    open spec fn as_value(&self) -> Value {
        Value::Hash(self.id)
    }

    fn inspect(&self, heap: &Heap) -> (r: Result<String, RuntimeError>) {
        heap.inspect(&AllObjects::HashMap(HashMapObj { id: self.id }))
    }
}

impl Object for Closure {
    open spec fn as_value(&self) -> Value {
        Value::Closure(self.func@, values_of(self.free@))
    }

    fn inspect(&self, heap: &Heap) -> (r: Result<String, RuntimeError>) {
        heap.inspect(&AllObjects::Closure(
                Closure { func: self.func.duplicate(), free: duplicate_all(&self.free) },
            ))
    }
}

} // verus!
