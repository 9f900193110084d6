//! The functions that every program can call without defining them.
use crate::error::RuntimeError;
use crate::object::heap::{
    array_at, array_popped, array_pushed, hash_at, hash_inserted, hash_removed, printed, Cell,
    Heap,
};
use crate::object::keys::{
    heap_in_order, lemma_delete_keeps_order, lemma_insert_keeps_order, lemma_pop_keeps_order,
    lemma_push_keeps_order,
};
use crate::object::objects::{
    Boolean, Builtin, BuiltinFunctionObj, BuiltinModel, Integer, Null, VARIADIC,
};
use crate::object::{kind_of, values_of, AllObjects, ObjectType, Value};
use vstd::prelude::*;
use vstd::string::StringExecFns;
use vstd::utf8::encode_utf8;

verus! {

/// The highest index of a builtin function; the indices start at one.
pub const BUILTIN_COUNT: usize = 8;

/// The name under which the builtin with the given index is known.
pub open spec fn builtin_name_of(index: int) -> Seq<char> {
    if index == 1 {
        "len"@
    } else if index == 2 {
        "print"@
    } else if index == 3 {
        "push"@
    } else if index == 4 {
        "pop"@
    } else if index == 5 {
        "is_null"@
    } else if index == 6 {
        "insert"@
    } else if index == 7 {
        "delete"@
    } else {
        "sleep"@
    }
}

/// The name of the builtin with the given index, if there is one.
pub fn builtin_name(index: usize) -> (name: Option<&'static str>)
    ensures
        match name {
            Some(n) => 1 <= index <= BUILTIN_COUNT && n@ == builtin_name_of(index as int),
            None => !(1 <= index <= BUILTIN_COUNT),
        },
{
    match index {
        1 => Some("len"),
        2 => Some("print"),
        3 => Some("push"),
        4 => Some("pop"),
        5 => Some("is_null"),
        6 => Some("insert"),
        7 => Some("delete"),
        8 => Some("sleep"),
        _ => None,
    }
}


/// The builtin function that programs load with the given index.
pub open spec fn builtin_at(index: int) -> BuiltinModel {
    if index == 1 {
        BuiltinModel { name: "len"@, num_params: 1, func: Builtin::Len }
    } else if index == 2 {
        BuiltinModel { name: "print"@, num_params: VARIADIC, func: Builtin::Print }
    } else if index == 3 {
        BuiltinModel { name: "push"@, num_params: 2, func: Builtin::Push }
    } else if index == 4 {
        BuiltinModel { name: "pop"@, num_params: 1, func: Builtin::Pop }
    } else if index == 5 {
        BuiltinModel { name: "is_null"@, num_params: 1, func: Builtin::IsNull }
    } else if index == 6 {
        BuiltinModel { name: "insert"@, num_params: 3, func: Builtin::Insert }
    } else if index == 7 {
        BuiltinModel { name: "delete"@, num_params: 2, func: Builtin::Delete }
    } else {
        BuiltinModel { name: "sleep"@, num_params: 1, func: Builtin::Sleep }
    }
}

/// Returns the builtin function with the given index.
pub fn get_builtin_function(index: usize) -> (r: Option<AllObjects>)
    ensures
        match r {
            Some(f) => 1 <= index <= BUILTIN_COUNT && f@ == Value::BuiltinFunction(
                builtin_at(index as int),
            ),
            None => !(1 <= index <= BUILTIN_COUNT),
        },
{
    let func = match index {
        1 => BuiltinFunctionObj::new("len", 1, Builtin::Len),
        2 => BuiltinFunctionObj::new("print", VARIADIC, Builtin::Print),
        3 => BuiltinFunctionObj::new("push", 2, Builtin::Push),
        4 => BuiltinFunctionObj::new("pop", 1, Builtin::Pop),
        5 => BuiltinFunctionObj::new("is_null", 1, Builtin::IsNull),
        6 => BuiltinFunctionObj::new("insert", 3, Builtin::Insert),
        7 => BuiltinFunctionObj::new("delete", 2, Builtin::Delete),
        8 => BuiltinFunctionObj::new("sleep", 1, Builtin::Sleep),
        _ => {
            return None;
        },
    };
    Some(AllObjects::BuiltinFunction(func))
}

/// What the host of the machine is asked to do for a builtin function.
#[derive(Debug)]
pub enum Effect {
    /// Write the text to the standard output.
    Print(String),
    /// Block for the given number of seconds.
    Sleep(u64),
}

/// An effect as a mathematical value.
pub enum EffectModel {
    Print(Seq<char>),
    Sleep(u64),
}

impl View for Effect {
    type V = EffectModel;

    open spec fn view(&self) -> EffectModel {
        match self {
            Effect::Print(text) => EffectModel::Print(text@),
            Effect::Sleep(seconds) => EffectModel::Sleep(*seconds),
        }
    }
}

/// The error of a builtin function that was handed a value of a kind that it
/// does not work on.
pub fn err_argument_not_supported(builtin: Builtin, obj_type: ObjectType) -> (e: RuntimeError)
    ensures
        e == (RuntimeError::ArgumentNotSupported { builtin, found: obj_type }),
{
    RuntimeError::ArgumentNotSupported { builtin, found: obj_type }
}

/// The length that `len` returns for a value: of a string the number of
/// bytes of its UTF-8 encoding, of an array the number of its elements, of a
/// hash map the number of its entries.
pub open spec fn length_of(heap: Seq<Cell>, v: Value) -> Result<nat, RuntimeError> {
    match v {
        Value::Str(s) => Ok(encode_utf8(s).len()),
        Value::Array(id) => match array_at(heap, id) {
            Some(elements) => Ok(elements.len()),
            None => Err(RuntimeError::InvalidHandle),
        },
        Value::Hash(id) => match hash_at(heap, id) {
            Some(entries) => Ok(entries.len()),
            None => Err(RuntimeError::InvalidHandle),
        },
        _ => Err(RuntimeError::ArgumentNotSupported { builtin: Builtin::Len, found: kind_of(v) }),
    }
}

/// What `len` returns.
pub open spec fn len_result(heap: Seq<Cell>, args: Seq<Value>) -> Result<Value, RuntimeError> {
    match length_of(heap, args[0]) {
        Err(e) => Err(e),
        Ok(n) => if n <= i64::MAX {
            Ok(Value::Integer(n as i64))
        } else {
            Err(RuntimeError::LengthOutOfRange)
        },
    }
}

/// Returns the length of a string, an array or a hash map.
pub fn len(heap: &Heap, values: Vec<AllObjects>) -> (r: Result<AllObjects, RuntimeError>)
    requires
        values@.len() >= 1,
    ensures
        match len_result(heap@, values_of(values@)) {
            Err(e) => r == Err::<AllObjects, RuntimeError>(e),
            Ok(v) => r is Ok && r->Ok_0@ == v,
        },
{
    let length: usize = match &values[0] {
        AllObjects::StringObj(v) => v.value.as_str().as_bytes().len(),
        AllObjects::ArrayObj(v) => match heap.array(v.id) {
            Some(elements) => elements.len(),
            None => {
                return Err(RuntimeError::InvalidHandle);
            },
        },
        AllObjects::HashMap(v) => match heap.hash(v.id) {
            Some(entries) => entries.len(),
            None => {
                return Err(RuntimeError::InvalidHandle);
            },
        },
        v => {
            return Err(err_argument_not_supported(Builtin::Len, v.object_type()));
        },
    };
    if length as u64 > i64::MAX as u64 {
        return Err(RuntimeError::LengthOutOfRange);
    }
    Ok(AllObjects::Integer(Integer { value: length as i64 }))
}

/// The texts of the first `k` arguments of `print`, separated by single
/// spaces.
pub open spec fn joined_texts(heap: Seq<Cell>, args: Seq<Value>, k: nat) -> Result<
    Seq<char>,
    RuntimeError,
>
    decreases k,
{
    if k == 0 {
        Ok(Seq::empty())
    } else {
        match joined_texts(heap, args, (k - 1) as nat) {
            Err(e) => Err(e),
            Ok(before) => match printed(heap, args[k - 1]) {
                Err(e) => Err(e),
                Ok(text) => Ok(
                    if k == 1 {
                        text
                    } else {
                        before + " "@ + text
                    },
                ),
            },
        }
    }
}

/// The text that `print` writes: its arguments separated by single spaces,
/// or a line break where it has none.
pub open spec fn print_text(heap: Seq<Cell>, args: Seq<Value>) -> Result<Seq<char>, RuntimeError> {
    if args.len() == 0 {
        Ok("\n"@)
    } else {
        joined_texts(heap, args, args.len())
    }
}

/// Once the texts of the first `k` arguments fail, so do the texts of more.
proof fn lemma_joined_texts_fails(heap: Seq<Cell>, args: Seq<Value>, k: nat, n: nat)
    requires
        k <= n,
        joined_texts(heap, args, k) is Err,
    ensures
        joined_texts(heap, args, n) == joined_texts(heap, args, k),
    decreases n - k,
{
    if k < n {
        lemma_joined_texts_fails(heap, args, k, (n - 1) as nat);
    }
}

/// Returns the text that a call of `print` with the given arguments writes
/// to the standard output.
pub fn print(heap: &Heap, args: Vec<AllObjects>) -> (r: Result<String, RuntimeError>)
    ensures
        match print_text(heap@, values_of(args@)) {
            Err(e) => r == Err::<String, RuntimeError>(e),
            Ok(text) => r is Ok && r->Ok_0@ == text,
        },
{
    let mut out = String::new();
    if args.len() == 0 {
        out.append("\n");
        assert(out@ =~= "\n"@);
        return Ok(out);
    }
    let mut i: usize = 0;
    while i < args.len()
        invariant
            i <= args@.len(),
            joined_texts(heap@, values_of(args@), i as nat) is Ok,
            out@ == joined_texts(heap@, values_of(args@), i as nat)->Ok_0,
        decreases args@.len() - i,
    {
        let text = match heap.inspect(&args[i]) {
            Err(e) => {
                proof {
                    lemma_joined_texts_fails(
                        heap@,
                        values_of(args@),
                        i as nat + 1,
                        args@.len(),
                    );
                }
                return Err(e);
            },
            Ok(t) => t,
        };
        if i > 0 {
            out.append(" ");
        }
        out.append(text.as_str());
        i += 1;
        assert(out@ =~= joined_texts(heap@, values_of(args@), i as nat)->Ok_0);
    }
    Ok(out)
}

/// What `push` does to the heap.
pub open spec fn push_result(heap: Seq<Cell>, args: Seq<Value>) -> Result<
    Seq<Cell>,
    RuntimeError,
> {
    match args[0] {
        Value::Array(id) => array_pushed(heap, id, args[1]),
        v => Err(RuntimeError::ArgumentNotSupported { builtin: Builtin::Push, found: kind_of(v) }),
    }
}

/// Appends an element to the back of an array and returns null.
pub fn push(heap: &mut Heap, args: Vec<AllObjects>) -> (r: Result<AllObjects, RuntimeError>)
    requires
        args@.len() >= 2,
    ensures
        match push_result(old(heap)@, values_of(args@)) {
            Err(e) => r == Err::<AllObjects, RuntimeError>(e) && final(heap)@ == old(heap)@,
            Ok(after) => r is Ok && r->Ok_0@ == Value::Null && final(heap)@ == after,
        },
        old(heap).wf() ==> final(heap).wf(),
{
    let mut args = args;
    let ghost given = values_of(args@);
    let array = args.remove(0);
    let value = args.remove(0);
    assert(array@ == given[0] && value@ == given[1]);
    let id = match array {
        AllObjects::ArrayObj(v) => v.id,
        v => {
            return Err(err_argument_not_supported(Builtin::Push, v.object_type()));
        },
    };
    match heap.array_push(id, value) {
        Err(e) => Err(e),
        Ok(()) => Ok(AllObjects::Null(Null)),
    }
}

/// What `pop` does to the heap, and what it returns.
pub open spec fn pop_result(heap: Seq<Cell>, args: Seq<Value>) -> Result<
    (Seq<Cell>, Value),
    RuntimeError,
> {
    match args[0] {
        Value::Array(id) => match array_popped(heap, id) {
            Err(e) => Err(e),
            Ok((after, Some(v))) => Ok((after, v)),
            Ok((after, None)) => Ok((after, Value::Null)),
        },
        v => Err(RuntimeError::ArgumentNotSupported { builtin: Builtin::Pop, found: kind_of(v) }),
    }
}

/// Removes the last element from an array and returns it, or null where the
/// array is empty.
pub fn pop(heap: &mut Heap, args: Vec<AllObjects>) -> (r: Result<AllObjects, RuntimeError>)
    requires
        args@.len() >= 1,
    ensures
        match pop_result(old(heap)@, values_of(args@)) {
            Err(e) => r == Err::<AllObjects, RuntimeError>(e) && final(heap)@ == old(heap)@,
            Ok((after, v)) => r is Ok && r->Ok_0@ == v && final(heap)@ == after,
        },
        old(heap).wf() ==> final(heap).wf(),
{
    let id = match &args[0] {
        AllObjects::ArrayObj(v) => v.id,
        v => {
            return Err(err_argument_not_supported(Builtin::Pop, v.object_type()));
        },
    };
    match heap.array_pop(id) {
        Err(e) => Err(e),
        Ok(Some(v)) => Ok(v),
        Ok(None) => Ok(AllObjects::Null(Null)),
    }
}

/// Checks whether the argument is null.
pub fn is_null(args: Vec<AllObjects>) -> (r: Result<AllObjects, RuntimeError>)
    requires
        args@.len() >= 1,
    ensures
        r is Ok,
        r->Ok_0@ == Value::Boolean(values_of(args@)[0] is Null),
{
    let is_null = args[0].is_null();
    Ok(AllObjects::Boolean(Boolean { value: is_null }))
}

/// What `insert` does to the heap, and what it returns.
pub open spec fn insert_result(heap: Seq<Cell>, args: Seq<Value>) -> Result<
    (Seq<Cell>, Value),
    RuntimeError,
> {
    match args[0] {
        Value::Hash(id) => match hash_inserted(heap, id, args[1], args[2]) {
            Err(e) => Err(e),
            Ok((after, Some(v))) => Ok((after, v)),
            Ok((after, None)) => Ok((after, Value::Null)),
        },
        v => Err(
            RuntimeError::ArgumentNotSupported { builtin: Builtin::Insert, found: kind_of(v) },
        ),
    }
}

/// Inserts a key and a value into a hash map. Returns the value that the key
/// had before, or null where it had none.
pub fn insert(heap: &mut Heap, args: Vec<AllObjects>) -> (r: Result<AllObjects, RuntimeError>)
    requires
        args@.len() >= 3,
    ensures
        match insert_result(old(heap)@, values_of(args@)) {
            Err(e) => r == Err::<AllObjects, RuntimeError>(e) && final(heap)@ == old(heap)@,
            Ok((after, v)) => r is Ok && r->Ok_0@ == v && final(heap)@ == after,
        },
        old(heap).wf() ==> final(heap).wf(),
{
    let mut args = args;
    let ghost given = values_of(args@);
    let map_arg = args.remove(0);
    let key = args.remove(0);
    let value = args.remove(0);
    assert(map_arg@ == given[0] && key@ == given[1] && value@ == given[2]);
    let id = match map_arg {
        AllObjects::HashMap(v) => v.id,
        v => {
            return Err(err_argument_not_supported(Builtin::Insert, v.object_type()));
        },
    };
    match heap.hash_insert(id, key, value) {
        Err(e) => Err(e),
        Ok(Some(v)) => Ok(v),
        Ok(None) => Ok(AllObjects::Null(Null)),
    }
}

/// What `delete` does to the heap, and what it returns.
pub open spec fn delete_result(heap: Seq<Cell>, args: Seq<Value>) -> Result<
    (Seq<Cell>, Value),
    RuntimeError,
> {
    match args[0] {
        Value::Hash(id) => match hash_removed(heap, id, args[1]) {
            Err(e) => Err(e),
            Ok((after, Some(v))) => Ok((after, v)),
            Ok((after, None)) => Ok((after, Value::Null)),
        },
        v => Err(
            RuntimeError::ArgumentNotSupported { builtin: Builtin::Delete, found: kind_of(v) },
        ),
    }
}

/// Removes a key from a hash map. Returns the value that the key had, or
/// null where it had none.
pub fn delete(heap: &mut Heap, args: Vec<AllObjects>) -> (r: Result<AllObjects, RuntimeError>)
    requires
        args@.len() >= 2,
    ensures
        match delete_result(old(heap)@, values_of(args@)) {
            Err(e) => r == Err::<AllObjects, RuntimeError>(e) && final(heap)@ == old(heap)@,
            Ok((after, v)) => r is Ok && r->Ok_0@ == v && final(heap)@ == after,
        },
        old(heap).wf() ==> final(heap).wf(),
{
    let id = match &args[0] {
        AllObjects::HashMap(v) => v.id,
        v => {
            return Err(err_argument_not_supported(Builtin::Delete, v.object_type()));
        },
    };
    match heap.hash_remove(id, &args[1]) {
        Err(e) => Err(e),
        Ok(Some(v)) => Ok(v),
        Ok(None) => Ok(AllObjects::Null(Null)),
    }
}

/// The number of seconds that `sleep` blocks for.
pub open spec fn sleep_seconds(args: Seq<Value>) -> Result<u64, RuntimeError> {
    match args[0] {
        Value::Integer(n) => if n >= 0 {
            Ok(n as u64)
        } else {
            Err(RuntimeError::InvalidSleepDuration)
        },
        v => Err(RuntimeError::ArgumentNotSupported { builtin: Builtin::Sleep, found: kind_of(v) }),
    }
}

/// Returns the number of seconds for which a call of `sleep` with the given
/// arguments blocks the program.
pub fn sleep(args: Vec<AllObjects>) -> (r: Result<u64, RuntimeError>)
    requires
        args@.len() >= 1,
    ensures
        r == sleep_seconds(values_of(args@)),
{
    match &args[0] {
        AllObjects::Integer(n) => {
            if n.value >= 0 {
                Ok(n.value as u64)
            } else {
                Err(RuntimeError::InvalidSleepDuration)
            }
        },
        v => Err(err_argument_not_supported(Builtin::Sleep, v.object_type())),
    }
}

/// The least number of arguments that a builtin function reads.
pub open spec fn arguments_read(func: Builtin) -> nat {
    match func {
        Builtin::Len => 1,
        Builtin::Print => 0,
        Builtin::Push => 2,
        Builtin::Pop => 1,
        Builtin::IsNull => 1,
        Builtin::Insert => 3,
        Builtin::Delete => 2,
        Builtin::Sleep => 1,
    }
}

/// What a call of a builtin function does: the heap after the call, the
/// value that the call returns, and what the host is asked to do. A call with
/// fewer arguments than the function reads fails.
pub open spec fn builtin_outcome(func: Builtin, heap: Seq<Cell>, args: Seq<Value>) -> Result<
    (Seq<Cell>, Value, Option<EffectModel>),
    RuntimeError,
> {
    if args.len() < arguments_read(func) {
        Err(
            RuntimeError::WrongArgumentCount {
                want: arguments_read(func) as usize,
                got: args.len() as usize,
            },
        )
    } else {
        match func {
            Builtin::Len => match len_result(heap, args) {
                Err(e) => Err(e),
                Ok(v) => Ok((heap, v, None)),
            },
            Builtin::Print => match print_text(heap, args) {
                Err(e) => Err(e),
                Ok(text) => Ok((heap, Value::Null, Some(EffectModel::Print(text)))),
            },
            Builtin::Push => match push_result(heap, args) {
                Err(e) => Err(e),
                Ok(after) => Ok((after, Value::Null, None)),
            },
            Builtin::Pop => match pop_result(heap, args) {
                Err(e) => Err(e),
                Ok((after, v)) => Ok((after, v, None)),
            },
            Builtin::IsNull => Ok((heap, Value::Boolean(args[0] is Null), None)),
            Builtin::Insert => match insert_result(heap, args) {
                Err(e) => Err(e),
                Ok((after, v)) => Ok((after, v, None)),
            },
            Builtin::Delete => match delete_result(heap, args) {
                Err(e) => Err(e),
                Ok((after, v)) => Ok((after, v, None)),
            },
            Builtin::Sleep => match sleep_seconds(args) {
                Err(e) => Err(e),
                Ok(seconds) => Ok((heap, Value::Null, Some(EffectModel::Sleep(seconds)))),
            },
        }
    }
}

/// The mathematical value of an effect that may be absent.
pub open spec fn optional_effect(e: Option<Effect>) -> Option<EffectModel> {
    match e {
        Some(effect) => Some(effect@),
        None => None,
    }
}

/// Calls a builtin function. Returns what the call evaluates to, and what
/// the host is asked to do.
pub fn call_builtin(func: Builtin, heap: &mut Heap, args: Vec<AllObjects>) -> (r: Result<
    (AllObjects, Option<Effect>),
    RuntimeError,
>)
    ensures
        match builtin_outcome(func, old(heap)@, values_of(args@)) {
            Err(e) => r == Err::<(AllObjects, Option<Effect>), RuntimeError>(e) && final(heap)@
                == old(heap)@,
            Ok((after, value, effect)) => r is Ok && final(heap)@ == after && r->Ok_0.0@ == value
                && optional_effect(r->Ok_0.1) == effect,
        },
        old(heap).wf() ==> final(heap).wf(),
{
    let needed: usize = match func {
        Builtin::Len => 1,
        Builtin::Print => 0,
        Builtin::Push => 2,
        Builtin::Pop => 1,
        Builtin::IsNull => 1,
        Builtin::Insert => 3,
        Builtin::Delete => 2,
        Builtin::Sleep => 1,
    };
    if args.len() < needed {
        return Err(RuntimeError::WrongArgumentCount { want: needed, got: args.len() });
    }
    match func {
        Builtin::Len => match len(heap, args) {
            Err(e) => Err(e),
            Ok(v) => Ok((v, None)),
        },
        Builtin::Print => match print(heap, args) {
            Err(e) => Err(e),
            Ok(text) => Ok((AllObjects::Null(Null), Some(Effect::Print(text)))),
        },
        Builtin::Push => match push(heap, args) {
            Err(e) => Err(e),
            Ok(v) => Ok((v, None)),
        },
        Builtin::Pop => match pop(heap, args) {
            Err(e) => Err(e),
            Ok(v) => Ok((v, None)),
        },
        Builtin::IsNull => match is_null(args) {
            Err(e) => Err(e),
            Ok(v) => Ok((v, None)),
        },
        Builtin::Insert => match insert(heap, args) {
            Err(e) => Err(e),
            Ok(v) => Ok((v, None)),
        },
        Builtin::Delete => match delete(heap, args) {
            Err(e) => Err(e),
            Ok(v) => Ok((v, None)),
        },
        Builtin::Sleep => match sleep(args) {
            Err(e) => Err(e),
            Ok(seconds) => Ok((AllObjects::Null(Null), Some(Effect::Sleep(seconds)))),
        },
    }
}


/// A call of a builtin function keeps the heap in order.
pub proof fn lemma_builtin_keeps_order(func: Builtin, heap: Seq<Cell>, args: Seq<Value>)
    requires
        heap_in_order(heap),
        builtin_outcome(func, heap, args) is Ok,
    ensures
        heap_in_order(builtin_outcome(func, heap, args)->Ok_0.0),
{
    match func {
        Builtin::Push => {
            if let Value::Array(id) = args[0] {
                lemma_push_keeps_order(heap, id, args[1]);
            }
        },
        Builtin::Pop => {
            if let Value::Array(id) = args[0] {
                lemma_pop_keeps_order(heap, id);
            }
        },
        Builtin::Insert => {
            if let Value::Hash(id) = args[0] {
                lemma_insert_keeps_order(heap, id, args[1], args[2]);
            }
        },
        Builtin::Delete => {
            if let Value::Hash(id) = args[0] {
                lemma_delete_keeps_order(heap, id, args[1]);
            }
        },
        _ => {},
    }
}

} // verus!
