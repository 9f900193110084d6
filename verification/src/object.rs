//! The run-time values of the language.
pub mod builtins;
pub mod heap;
pub mod keys;
pub mod nesting;
pub mod objects;

use crate::error::RuntimeError;
use crate::object::heap::{printed, text_of, Heap};
use crate::object::objects::{
    ArrayObj, Boolean, BuiltinFunctionObj, BuiltinModel, Closure, CompiledFunctionObj,
    FunctionModel, HashMapObj, Integer, Null, StringObj,
};
use vstd::prelude::*;

verus! {

/// What every kind of value offers: a text form, which is used to print the
/// value and in error messages.
pub trait Object {
    /// The value that `self` is, as a mathematical object.
    spec fn as_value(&self) -> Value;

    /// How the value prints. Arrays and hash maps are looked up in `heap`;
    /// a value that contains itself has no text.
    fn inspect(&self, heap: &Heap) -> (r: Result<String, RuntimeError>)
        ensures
            text_of(r) == printed(heap@, self.as_value()),
    ;
}

/// The kind of a value, without what it holds.
#[derive(Clone, Copy, Debug, PartialEq, Eq, Structural)]
pub enum ObjectType {
    Integer,
    String,
    Boolean,
    Null,
    CompiledFunction,
    BuiltinFunction,
    Array,
    HashMap,
    Closure,
}

/// The name of a kind of value, as error messages show it.
pub open spec fn kind_name(t: ObjectType) -> Seq<char> {
    match t {
        ObjectType::Integer => "INTEGER"@,
        ObjectType::String => "STRING"@,
        ObjectType::Boolean => "BOOLEAN"@,
        ObjectType::Null => "NULL"@,
        ObjectType::CompiledFunction => "COMPILED_FUNCTION"@,
        ObjectType::BuiltinFunction => "BUILTIN_FUNCTION"@,
        ObjectType::Array => "ARRAY"@,
        ObjectType::HashMap => "HASH_MAP"@,
        ObjectType::Closure => "CLOSURE"@,
    }
}

impl ObjectType {
    /// The name of the kind, as error messages show it.
    pub fn name(&self) -> (s: &'static str)
        ensures
            s@ == kind_name(*self),
    {
        match self {
            ObjectType::Integer => "INTEGER",
            ObjectType::String => "STRING",
            ObjectType::Boolean => "BOOLEAN",
            ObjectType::Null => "NULL",
            ObjectType::CompiledFunction => "COMPILED_FUNCTION",
            ObjectType::BuiltinFunction => "BUILTIN_FUNCTION",
            ObjectType::Array => "ARRAY",
            ObjectType::HashMap => "HASH_MAP",
            ObjectType::Closure => "CLOSURE",
        }
    }
}

/// A value of the language. Arrays and hash maps are shared and mutable:
/// such a value is a handle to an object of the heap, and copies of the handle
/// refer to the same object.
#[derive(Debug)]
pub enum AllObjects {
    Integer(Integer),
    StringObj(StringObj),
    Boolean(Boolean),
    Null(Null),
    CompiledFunction(CompiledFunctionObj),
    BuiltinFunction(BuiltinFunctionObj),
    ArrayObj(ArrayObj),
    HashMap(HashMapObj),
    Closure(Closure),
}

/// A value as a mathematical object.
pub enum Value {
    Integer(i64),
    Str(Seq<char>),
    Boolean(bool),
    Null,
    CompiledFunction(FunctionModel),
    BuiltinFunction(BuiltinModel),
    Array(usize),
    Hash(usize),
    Closure(FunctionModel, Seq<Value>),
}

/// The mathematical object that a value stands for.
pub open spec fn value_of(o: AllObjects) -> Value
    decreases o,
{
    match o {
        AllObjects::Integer(v) => Value::Integer(v.value),
        AllObjects::StringObj(v) => Value::Str(v.value@),
        AllObjects::Boolean(v) => Value::Boolean(v.value),
        AllObjects::Null(_) => Value::Null,
        AllObjects::CompiledFunction(f) => Value::CompiledFunction(f@),
        AllObjects::BuiltinFunction(f) => Value::BuiltinFunction(f@),
        AllObjects::ArrayObj(a) => Value::Array(a.id),
        AllObjects::HashMap(h) => Value::Hash(h.id),
        AllObjects::Closure(c) => Value::Closure(c.func@, values_of(c.free@)),
    }
}

/// The mathematical objects that a sequence of values stands for.
pub open spec fn values_of(s: Seq<AllObjects>) -> Seq<Value>
    decreases s,
{
    Seq::new(
        s.len(),
        |i: int|
            if 0 <= i < s.len() {
                value_of(s[i])
            } else {
                Value::Null
            },
    )
}

/// The mathematical objects that a sequence of key and value pairs stands for.
pub open spec fn pairs_of(s: Seq<(AllObjects, AllObjects)>) -> Seq<(Value, Value)> {
    Seq::new(s.len(), |i: int| (value_of(s[i].0), value_of(s[i].1)))
}

/// The kind of a value.
pub open spec fn kind_of(v: Value) -> ObjectType {
    match v {
        Value::Integer(_) => ObjectType::Integer,
        Value::Str(_) => ObjectType::String,
        Value::Boolean(_) => ObjectType::Boolean,
        Value::Null => ObjectType::Null,
        Value::CompiledFunction(_) => ObjectType::CompiledFunction,
        Value::BuiltinFunction(_) => ObjectType::BuiltinFunction,
        Value::Array(_) => ObjectType::Array,
        Value::Hash(_) => ObjectType::HashMap,
        Value::Closure(_, _) => ObjectType::Closure,
    }
}

impl View for AllObjects {
    type V = Value;

    open spec fn view(&self) -> Value {
        value_of(*self)
    }
}

impl AllObjects {
    /// The kind of the value.
    pub fn object_type(&self) -> (t: ObjectType)
        ensures
            t == kind_of(self@),
    {
        match self {
            Self::Integer(_) => ObjectType::Integer,
            Self::StringObj(_) => ObjectType::String,
            Self::Boolean(_) => ObjectType::Boolean,
            Self::Null(_) => ObjectType::Null,
            Self::CompiledFunction(_) => ObjectType::CompiledFunction,
            Self::BuiltinFunction(_) => ObjectType::BuiltinFunction,
            Self::ArrayObj(_) => ObjectType::Array,
            Self::HashMap(_) => ObjectType::HashMap,
            Self::Closure(_) => ObjectType::Closure,
        }
    }

    /// Whether the value is an integer.
    pub fn is_integer(&self) -> (b: bool)
        ensures
            b == (self@ is Integer),
    {
        self.object_type() == ObjectType::Integer
    }

    /// Whether the value is a boolean.
    pub fn is_boolean(&self) -> (b: bool)
        ensures
            b == (self@ is Boolean),
    {
        self.object_type() == ObjectType::Boolean
    }

    /// Whether the value is null.
    pub fn is_null(&self) -> (b: bool)
        ensures
            b == (self@ is Null),
    {
        self.object_type() == ObjectType::Null
    }

    /// Whether the value is a string.
    pub fn is_string(&self) -> (b: bool)
        ensures
            b == (self@ is Str),
    {
        self.object_type() == ObjectType::String
    }

    /// A copy of the value. The copy of an array or of a hash map refers to
    /// the same object as the value that was copied.
    pub fn duplicate(&self) -> (r: Self)
        ensures
            r@ == self@,
        decreases self,
    {
        match self {
            Self::Integer(v) => Self::Integer(Integer { value: v.value }),
            Self::StringObj(v) => Self::StringObj(StringObj { value: v.value.clone() }),
            Self::Boolean(v) => Self::Boolean(Boolean { value: v.value }),
            Self::Null(_) => Self::Null(Null),
            Self::CompiledFunction(f) => Self::CompiledFunction(f.duplicate()),
            Self::BuiltinFunction(f) => Self::BuiltinFunction(f.duplicate()),
            Self::ArrayObj(a) => Self::ArrayObj(ArrayObj { id: a.id }),
            Self::HashMap(h) => Self::HashMap(HashMapObj { id: h.id }),
            Self::Closure(c) => {
                let mut free: Vec<AllObjects> = Vec::new();
                let mut i: usize = 0;
                while i < c.free.len()
                    invariant
                        i <= c.free@.len(),
                        free@.len() == i,
                        forall|j: int| 0 <= j < i ==> free@[j]@ == c.free@[j]@,
                        decreases_to!(self => c.free),
                    decreases c.free@.len() - i,
                {
                    free.push(c.free[i].duplicate());
                    i += 1;
                }
                assert(values_of(free@) =~= values_of(c.free@));
                Self::Closure(Closure { func: c.func.duplicate(), free })
            },
        }
    }
}

impl Object for AllObjects {
    open spec fn as_value(&self) -> Value {
        self@
    }

    fn inspect(&self, heap: &Heap) -> (r: Result<String, RuntimeError>) {
        heap.inspect(self)
    }
}

/// A copy of a sequence of values.
pub fn duplicate_all(values: &Vec<AllObjects>) -> (r: Vec<AllObjects>)
    ensures
        values_of(r@) == values_of(values@),
{
    let mut out: Vec<AllObjects> = Vec::new();
    let mut i: usize = 0;
    while i < values.len()
        invariant
            i <= values@.len(),
            out@.len() == i,
            forall|j: int| 0 <= j < i ==> out@[j]@ == values@[j]@,
        decreases values@.len() - i,
    {
        out.push(values[i].duplicate());
        i += 1;
    }
    assert(values_of(out@) =~= values_of(values@));
    out
}

} // verus!
