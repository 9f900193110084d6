//! The heap: the arrays and hash maps that values refer to by handle, and
//! what depends on their contents, which is how a value prints and whether
//! two values are equal.
use crate::error::RuntimeError;
use crate::object::keys::{
    distinct_plain_keys, heap_in_order, lemma_delete_keeps_order, lemma_insert_keeps_order,
    lemma_new_object_keeps_order, lemma_pop_keeps_order, lemma_push_keeps_order,
};
use crate::object::{pairs_of, values_of, AllObjects, Value};
use crate::text::{push_signed_decimal, signed_decimal};
use vstd::prelude::*;
use vstd::string::StringExecFns;

verus! {

/// An object of the heap: an array, or a hash map as a list of entries in
/// the order in which their keys were first inserted.
#[derive(Debug)]
pub enum HeapObject {
    Array(Vec<AllObjects>),
    Hash(Vec<(AllObjects, AllObjects)>),
}

/// An object of the heap as a mathematical value.
pub enum Cell {
    Array(Seq<Value>),
    Hash(Seq<(Value, Value)>),
}

/// The mathematical value that a heap object stands for.
pub open spec fn cell_of(o: HeapObject) -> Cell {
    match o {
        HeapObject::Array(v) => Cell::Array(values_of(v@)),
        HeapObject::Hash(v) => Cell::Hash(pairs_of(v@)),
    }
}

/// The objects that arrays and hash map values refer to. A handle is the
/// position of its object; objects are never removed.
#[derive(Debug)]
pub struct Heap {
    pub objects: Vec<HeapObject>,
}

impl View for Heap {
    type V = Seq<Cell>;

    open spec fn view(&self) -> Seq<Cell> {
        Seq::new(self.objects@.len(), |i: int| cell_of(self.objects@[i]))
    }
}

/// The elements of the array that `id` refers to.
pub open spec fn array_at(heap: Seq<Cell>, id: usize) -> Option<Seq<Value>> {
    if id < heap.len() {
        match heap[id as int] {
            Cell::Array(elements) => Some(elements),
            Cell::Hash(_) => None,
        }
    } else {
        None
    }
}

/// The entries of the hash map that `id` refers to.
pub open spec fn hash_at(heap: Seq<Cell>, id: usize) -> Option<Seq<(Value, Value)>> {
    if id < heap.len() {
        match heap[id as int] {
            Cell::Array(_) => None,
            Cell::Hash(entries) => Some(entries),
        }
    } else {
        None
    }
}

/// The text in which every occurrence of `from` is replaced by `to`,
/// scanning from the left and going on behind each occurrence.
pub open spec fn replaced(s: Seq<char>, from: Seq<char>, to: Seq<char>) -> Seq<char>
    decreases s.len(),
{
    if from.len() == 0 || s.len() < from.len() {
        s
    } else if s.subrange(0, from.len() as int) == from {
        to + replaced(s.subrange(from.len() as int, s.len() as int), from, to)
    } else {
        seq![s[0]] + replaced(s.subrange(1, s.len() as int), from, to)
    }
}

/// The text of a string value as it prints: the two-character sequences
/// backslash-n and backslash-t become a line break and a tabulator.
pub open spec fn unescaped(s: Seq<char>) -> Seq<char> {
    replaced(replaced(s, "\\n"@, "\n"@), "\\t"@, "\t"@)
}

/// `str::replace`: a new string in which the non-overlapping occurrences of
/// the pattern `from`, found from the left, are replaced by `to`.
#[verifier::external_body]
fn replace_all(s: &str, from: &str, to: &str) -> (r: String)
    requires
        from@.len() > 0,
    ensures
        r@ == replaced(s@, from@, to@),
{
    s.replace(from, to)
}

/// How a value prints, where arrays and hash maps are followed `depth`
/// levels deep. An array prints as `[a, b]`, a hash map as `{ k:v, l:w }` in
/// the order of its entries.
pub open spec fn inspect_text(heap: Seq<Cell>, v: Value, depth: nat) -> Result<
    Seq<char>,
    RuntimeError,
>
    decreases depth, 0nat,
{
    match v {
        Value::Integer(n) => Ok(signed_decimal(n as int)),
        Value::Str(s) => Ok(unescaped(s)),
        Value::Boolean(b) => Ok(
            if b {
                "true"@
            } else {
                "false"@
            },
        ),
        Value::Null => Ok("null"@),
        Value::CompiledFunction(_) => Ok("fn(){}"@),
        Value::BuiltinFunction(f) => Ok(f.name),
        Value::Closure(_, _) => Ok("Closure[fn(){}]"@),
        Value::Array(id) => match array_at(heap, id) {
            None => Err(RuntimeError::InvalidHandle),
            Some(elements) => if depth == 0 {
                Err(RuntimeError::NestingTooDeep)
            } else {
                match inspect_elements(heap, elements, (depth - 1) as nat, elements.len()) {
                    Err(e) => Err(e),
                    Ok(inner) => Ok("["@ + inner + "]"@),
                }
            },
        },
        Value::Hash(id) => match hash_at(heap, id) {
            None => Err(RuntimeError::InvalidHandle),
            Some(entries) => if depth == 0 {
                Err(RuntimeError::NestingTooDeep)
            } else {
                match inspect_entries(heap, entries, (depth - 1) as nat, entries.len()) {
                    Err(e) => Err(e),
                    Ok(inner) => Ok("{ "@ + inner + " }"@),
                }
            },
        },
    }
}

/// The texts of the first `k` elements, separated by a comma and a space.
pub open spec fn inspect_elements(heap: Seq<Cell>, elements: Seq<Value>, depth: nat, k: nat) -> Result<
    Seq<char>,
    RuntimeError,
>
    decreases depth, k + 1,
{
    if k == 0 {
        Ok(Seq::empty())
    } else {
        match inspect_elements(heap, elements, depth, (k - 1) as nat) {
            Err(e) => Err(e),
            Ok(before) => match inspect_text(heap, elements[k - 1], depth) {
                Err(e) => Err(e),
                Ok(text) => Ok(
                    if k == 1 {
                        text
                    } else {
                        before + ", "@ + text
                    },
                ),
            },
        }
    }
}

/// The texts of the first `k` entries, each as key, colon and value, separated
/// by a comma and a space.
pub open spec fn inspect_entries(
    heap: Seq<Cell>,
    entries: Seq<(Value, Value)>,
    depth: nat,
    k: nat,
) -> Result<Seq<char>, RuntimeError>
    decreases depth, k + 1,
{
    if k == 0 {
        Ok(Seq::empty())
    } else {
        match inspect_entries(heap, entries, depth, (k - 1) as nat) {
            Err(e) => Err(e),
            Ok(before) => match inspect_text(heap, entries[k - 1].0, depth) {
                Err(e) => Err(e),
                Ok(key) => match inspect_text(heap, entries[k - 1].1, depth) {
                    Err(e) => Err(e),
                    Ok(value) => Ok(
                        if k == 1 {
                            key + ":"@ + value
                        } else {
                            before + ", "@ + key + ":"@ + value
                        },
                    ),
                },
            },
        }
    }
}

/// Whether two values are equal as keys of a hash map, where arrays and
/// hash maps are followed `depth` levels deep. Integers, strings and
/// booleans are equal where they hold the same; functions where their
/// instructions are the same; builtin functions where their names are;
/// closures where their functions and what they captured are equal; arrays
/// where they are the same array or equal element by element; hash maps
/// where they are the same hash map or print the same. Values of different
/// kinds are never equal.
pub open spec fn values_equal(heap: Seq<Cell>, a: Value, b: Value, depth: nat) -> Result<
    bool,
    RuntimeError,
>
    decreases depth, a, 0nat,
{
    match (a, b) {
        (Value::Integer(x), Value::Integer(y)) => Ok(x == y),
        (Value::Str(x), Value::Str(y)) => Ok(x == y),
        (Value::Boolean(x), Value::Boolean(y)) => Ok(x == y),
        (Value::Null, Value::Null) => Ok(true),
        (Value::CompiledFunction(f), Value::CompiledFunction(g)) => Ok(
            f.instructions == g.instructions,
        ),
        (Value::BuiltinFunction(f), Value::BuiltinFunction(g)) => Ok(f.name == g.name),
        (Value::Closure(f, xs), Value::Closure(g, ys)) => if f.instructions != g.instructions {
            Ok(false)
        } else {
            lists_equal(heap, xs, ys, depth, 0)
        },
        (Value::Array(i), Value::Array(j)) => match (array_at(heap, i), array_at(heap, j)) {
            (Some(xs), Some(ys)) => if i == j {
                Ok(true)
            } else if depth == 0 {
                Err(RuntimeError::NestingTooDeep)
            } else {
                lists_equal(heap, xs, ys, (depth - 1) as nat, 0)
            },
            _ => Err(RuntimeError::InvalidHandle),
        },
        (Value::Hash(i), Value::Hash(j)) => if i == j && hash_at(heap, i) is Some {
            Ok(true)
        } else {
            match inspect_text(heap, a, depth) {
                Err(e) => Err(e),
                Ok(s) => match inspect_text(heap, b, depth) {
                    Err(e) => Err(e),
                    Ok(t) => Ok(s == t),
                },
            }
        },
        _ => Ok(false),
    }
}

/// Whether two sequences of values are of the same length and equal element
/// by element from position `from` on. The first pair that differs, or that
/// cannot be compared, decides.
pub open spec fn lists_equal(
    heap: Seq<Cell>,
    xs: Seq<Value>,
    ys: Seq<Value>,
    depth: nat,
    from: nat,
) -> Result<bool, RuntimeError>
    decreases depth, xs, xs.len() - from,
{
    if xs.len() != ys.len() {
        Ok(false)
    } else if from >= xs.len() {
        Ok(true)
    } else {
        match values_equal(heap, xs[from as int], ys[from as int], depth) {
            Err(e) => Err(e),
            Ok(false) => Ok(false),
            Ok(true) => lists_equal(heap, xs, ys, depth, from + 1),
        }
    }
}

/// How a value prints. Arrays and hash maps are followed as deep as the
/// heap has objects: deeper than that, a value contains itself, and has no
/// text.
pub open spec fn printed(heap: Seq<Cell>, v: Value) -> Result<Seq<char>, RuntimeError> {
    inspect_text(heap, v, heap.len())
}

/// Whether two values are equal as keys of a hash map. Arrays and hash maps
/// are followed as deep as the heap has objects: deeper than that, both
/// values contain themselves, and the comparison has no answer.
pub open spec fn keys_equal(heap: Seq<Cell>, a: Value, b: Value) -> Result<bool, RuntimeError> {
    values_equal(heap, a, b, heap.len())
}

/// The position of the first entry from `from` on whose key equals `key`.
pub open spec fn find_key(
    heap: Seq<Cell>,
    entries: Seq<(Value, Value)>,
    key: Value,
    from: nat,
) -> Result<Option<nat>, RuntimeError>
    decreases entries.len() - from,
{
    if from >= entries.len() {
        Ok(None)
    } else {
        match keys_equal(heap, entries[from as int].0, key) {
            Err(e) => Err(e),
            Ok(true) => Ok(Some(from)),
            Ok(false) => find_key(heap, entries, key, from + 1),
        }
    }
}

/// The value that the hash map `id` holds for `key`, if any.
pub open spec fn hash_lookup(heap: Seq<Cell>, id: usize, key: Value) -> Result<
    Option<Value>,
    RuntimeError,
> {
    match hash_at(heap, id) {
        None => Err(RuntimeError::InvalidHandle),
        Some(entries) => match find_key(heap, entries, key, 0) {
            Err(e) => Err(e),
            Ok(None) => Ok(None),
            Ok(Some(i)) => Ok(Some(entries[i as int].1)),
        },
    }
}

/// The heap after `key` is bound to `value` in the hash map `id`, and the
/// value that `key` was bound to before. An entry whose key equals `key`
/// keeps its key and its place and gets the new value; where there is none,
/// a new entry is appended.
pub open spec fn hash_inserted(heap: Seq<Cell>, id: usize, key: Value, value: Value) -> Result<
    (Seq<Cell>, Option<Value>),
    RuntimeError,
> {
    match hash_at(heap, id) {
        None => Err(RuntimeError::InvalidHandle),
        Some(entries) => match find_key(heap, entries, key, 0) {
            Err(e) => Err(e),
            Ok(None) => Ok((heap.update(id as int, Cell::Hash(entries.push((key, value)))), None)),
            Ok(Some(i)) => Ok(
                (
                    heap.update(
                        id as int,
                        Cell::Hash(entries.update(i as int, (entries[i as int].0, value))),
                    ),
                    Some(entries[i as int].1),
                ),
            ),
        },
    }
}

/// The heap after the entry of `key` is removed from the hash map `id`, and
/// the value that `key` was bound to.
pub open spec fn hash_removed(heap: Seq<Cell>, id: usize, key: Value) -> Result<
    (Seq<Cell>, Option<Value>),
    RuntimeError,
> {
    match hash_at(heap, id) {
        None => Err(RuntimeError::InvalidHandle),
        Some(entries) => match find_key(heap, entries, key, 0) {
            Err(e) => Err(e),
            Ok(None) => Ok((heap, None)),
            Ok(Some(i)) => Ok(
                (
                    heap.update(id as int, Cell::Hash(entries.remove(i as int))),
                    Some(entries[i as int].1),
                ),
            ),
        },
    }
}

/// The heap after `value` is appended to the array `id`.
pub open spec fn array_pushed(heap: Seq<Cell>, id: usize, value: Value) -> Result<
    Seq<Cell>,
    RuntimeError,
> {
    match array_at(heap, id) {
        None => Err(RuntimeError::InvalidHandle),
        Some(elements) => Ok(heap.update(id as int, Cell::Array(elements.push(value)))),
    }
}

/// The heap after the last element is removed from the array `id`, and that
/// element; an empty array stays as it is.
pub open spec fn array_popped(heap: Seq<Cell>, id: usize) -> Result<
    (Seq<Cell>, Option<Value>),
    RuntimeError,
> {
    match array_at(heap, id) {
        None => Err(RuntimeError::InvalidHandle),
        Some(elements) => if elements.len() == 0 {
            Ok((heap, None))
        } else {
            Ok((heap.update(id as int, Cell::Array(elements.drop_last())), Some(elements.last())))
        },
    }
}

/// The mathematical object of a value that may be absent.
pub open spec fn optional_value(o: Option<AllObjects>) -> Option<Value> {
    match o {
        Some(v) => Some(v@),
        None => None,
    }
}

/// The text of a result that holds a string.
pub open spec fn text_of(r: Result<String, RuntimeError>) -> Result<Seq<char>, RuntimeError> {
    match r {
        Ok(s) => Ok(s@),
        Err(e) => Err(e),
    }
}

/// Whether two byte sequences are the same.
pub fn bytes_equal(a: &Vec<u8>, b: &Vec<u8>) -> (r: bool)
    ensures
        r == (a@ == b@),
{
    if a.len() != b.len() {
        return false;
    }
    let mut i: usize = 0;
    while i < a.len()
        invariant
            a@.len() == b@.len(),
            i <= a@.len(),
            forall|j: int| 0 <= j < i ==> a@[j] == b@[j],
        decreases a@.len() - i,
    {
        if a[i] != b[i] {
            return false;
        }
        i += 1;
    }
    assert(a@ =~= b@);
    true
}

impl Heap {
    /// No hash map of the heap holds twice a key whose equality does not
    /// depend on the heap.
    pub open spec fn wf(&self) -> bool {
        heap_in_order(self@)
    }

    /// A heap without objects.
    pub fn new() -> (h: Self)
        ensures
            h@ == Seq::<Cell>::empty(),
    {
        let h = Heap { objects: Vec::new() };
        assert(h@ =~= Seq::<Cell>::empty());
        h
    }

    /// Puts a new array on the heap and returns its handle.
    pub fn allocate_array(&mut self, elements: Vec<AllObjects>) -> (id: usize)
        ensures
            id == old(self)@.len(),
            final(self)@ == old(self)@.push(Cell::Array(values_of(elements@))),
            old(self).wf() ==> final(self).wf(),
    {
        proof {
            if self.wf() {
                lemma_new_object_keeps_order(self@, Cell::Array(values_of(elements@)));
            }
        }
        let id = self.objects.len();
        self.objects.push(HeapObject::Array(elements));
        assert(self@ =~= old(self)@.push(Cell::Array(values_of(elements@))));
        id
    }

    /// Puts a new hash map on the heap and returns its handle.
    pub fn allocate_hash(&mut self, entries: Vec<(AllObjects, AllObjects)>) -> (id: usize)
        ensures
            id == old(self)@.len(),
            final(self)@ == old(self)@.push(Cell::Hash(pairs_of(entries@))),
            old(self).wf() && distinct_plain_keys(pairs_of(entries@)) ==> final(self).wf(),
    {
        proof {
            if self.wf() && distinct_plain_keys(pairs_of(entries@)) {
                lemma_new_object_keeps_order(self@, Cell::Hash(pairs_of(entries@)));
            }
        }
        let id = self.objects.len();
        self.objects.push(HeapObject::Hash(entries));
        assert(self@ =~= old(self)@.push(Cell::Hash(pairs_of(entries@))));
        id
    }

    /// The elements of the array that `id` refers to.
    pub fn array(&self, id: usize) -> (r: Option<&Vec<AllObjects>>)
        ensures
            match r {
                Some(v) => array_at(self@, id) == Some(values_of(v@)),
                None => array_at(self@, id) is None,
            },
    {
        if id < self.objects.len() {
            match &self.objects[id] {
                HeapObject::Array(v) => Some(v),
                HeapObject::Hash(_) => None,
            }
        } else {
            None
        }
    }

    /// The entries of the hash map that `id` refers to.
    pub fn hash(&self, id: usize) -> (r: Option<&Vec<(AllObjects, AllObjects)>>)
        ensures
            match r {
                Some(v) => hash_at(self@, id) == Some(pairs_of(v@)),
                None => hash_at(self@, id) is None,
            },
    {
        if id < self.objects.len() {
            match &self.objects[id] {
                HeapObject::Array(_) => None,
                HeapObject::Hash(v) => Some(v),
            }
        } else {
            None
        }
    }

    /// How `value` prints, with arrays and hash maps followed `depth` levels
    /// deep.
    pub fn inspect_value(&self, value: &AllObjects, depth: usize) -> (r: Result<
        String,
        RuntimeError,
    >)
        ensures
            text_of(r) == inspect_text(self@, value@, depth as nat),
        decreases depth, 0nat,
    {
        let mut out = String::new();
        match value {
            AllObjects::Integer(v) => {
                push_signed_decimal(&mut out, v.value);
            },
            AllObjects::StringObj(v) => {
                proof {
                    reveal_strlit("\\n");
                    reveal_strlit("\\t");
                }
                let first = replace_all(v.value.as_str(), "\\n", "\n");
                let second = replace_all(first.as_str(), "\\t", "\t");
                return Ok(second);
            },
            AllObjects::Boolean(v) => {
                if v.value {
                    out.append("true");
                } else {
                    out.append("false");
                }
            },
            AllObjects::Null(_) => {
                out.append("null");
            },
            AllObjects::CompiledFunction(_) => {
                out.append("fn(){}");
            },
            AllObjects::BuiltinFunction(f) => {
                out.append(f.fn_name.as_str());
            },
            AllObjects::Closure(_) => {
                out.append("Closure[fn(){}]");
            },
            AllObjects::ArrayObj(a) => {
                let elements = match self.array(a.id) {
                    None => {
                        return Err(RuntimeError::InvalidHandle);
                    },
                    Some(v) => v,
                };
                if depth == 0 {
                    return Err(RuntimeError::NestingTooDeep);
                }
                out.append("[");
                let mut i: usize = 0;
                while i < elements.len()
                    invariant
                        depth > 0,
                        i <= elements@.len(),
                        inspect_text(self@, value@, depth as nat) == (match inspect_elements(
                            self@,
                            values_of(elements@),
                            (depth - 1) as nat,
                            elements@.len(),
                        ) {
                            Err(e) => Err(e),
                            Ok(inner) => Ok("["@ + inner + "]"@),
                        }),
                        inspect_elements(
                            self@,
                            values_of(elements@),
                            (depth - 1) as nat,
                            i as nat,
                        ) is Ok,
                        out@ == "["@ + inspect_elements(
                            self@,
                            values_of(elements@),
                            (depth - 1) as nat,
                            i as nat,
                        )->Ok_0,
                    decreases elements@.len() - i,
                {
                    let text = match self.inspect_value(&elements[i], depth - 1) {
                        Err(e) => {
                            proof {
                                lemma_inspect_elements_fails(
                                    self@,
                                    values_of(elements@),
                                    (depth - 1) as nat,
                                    i as nat + 1,
                                    elements@.len(),
                                );
                            }
                            return Err(e);
                        },
                        Ok(t) => t,
                    };
                    let ghost before = out@;
                    if i > 0 {
                        out.append(", ");
                    }
                    out.append(text.as_str());
                    i += 1;
                    assert(out@ =~= "["@ + inspect_elements(
                        self@,
                        values_of(elements@),
                        (depth - 1) as nat,
                        i as nat,
                    )->Ok_0);
                }
                out.append("]");
            },
            AllObjects::HashMap(h) => {
                let entries = match self.hash(h.id) {
                    None => {
                        return Err(RuntimeError::InvalidHandle);
                    },
                    Some(v) => v,
                };
                if depth == 0 {
                    return Err(RuntimeError::NestingTooDeep);
                }
                out.append("{ ");
                let mut i: usize = 0;
                while i < entries.len()
                    invariant
                        depth > 0,
                        i <= entries@.len(),
                        inspect_text(self@, value@, depth as nat) == (match inspect_entries(
                            self@,
                            pairs_of(entries@),
                            (depth - 1) as nat,
                            entries@.len(),
                        ) {
                            Err(e) => Err(e),
                            Ok(inner) => Ok("{ "@ + inner + " }"@),
                        }),
                        inspect_entries(self@, pairs_of(entries@), (depth - 1) as nat, i as nat) is Ok,
                        out@ == "{ "@ + inspect_entries(
                            self@,
                            pairs_of(entries@),
                            (depth - 1) as nat,
                            i as nat,
                        )->Ok_0,
                    decreases entries@.len() - i,
                {
                    let key = match self.inspect_value(&entries[i].0, depth - 1) {
                        Err(e) => {
                            proof {
                                lemma_inspect_entries_fails(
                                    self@,
                                    pairs_of(entries@),
                                    (depth - 1) as nat,
                                    i as nat + 1,
                                    entries@.len(),
                                );
                            }
                            return Err(e);
                        },
                        Ok(t) => t,
                    };
                    let value = match self.inspect_value(&entries[i].1, depth - 1) {
                        Err(e) => {
                            proof {
                                lemma_inspect_entries_fails(
                                    self@,
                                    pairs_of(entries@),
                                    (depth - 1) as nat,
                                    i as nat + 1,
                                    entries@.len(),
                                );
                            }
                            return Err(e);
                        },
                        Ok(t) => t,
                    };
                    if i > 0 {
                        out.append(", ");
                    }
                    out.append(key.as_str());
                    out.append(":");
                    out.append(value.as_str());
                    i += 1;
                    assert(out@ =~= "{ "@ + inspect_entries(
                        self@,
                        pairs_of(entries@),
                        (depth - 1) as nat,
                        i as nat,
                    )->Ok_0);
                }
                out.append(" }");
            },
        }
        assert(Ok::<Seq<char>, RuntimeError>(out@) =~= inspect_text(self@, value@, depth as nat));
        Ok(out)
    }

    /// How `value` prints.
    pub fn inspect(&self, value: &AllObjects) -> (r: Result<String, RuntimeError>)
        ensures
            text_of(r) == printed(self@, value@),
    {
        self.inspect_value(value, self.objects.len())
    }

    /// Whether `a` and `b` are equal as keys of a hash map.
    pub fn same_key(&self, a: &AllObjects, b: &AllObjects) -> (r: Result<bool, RuntimeError>)
        ensures
            r == keys_equal(self@, a@, b@),
    {
        self.equal_values(a, b, self.objects.len())
    }

    /// Whether `a` and `b` are equal as keys of a hash map, with arrays and
    /// hash maps followed `depth` levels deep.
    pub fn equal_values(&self, a: &AllObjects, b: &AllObjects, depth: usize) -> (r: Result<
        bool,
        RuntimeError,
    >)
        ensures
            r == values_equal(self@, a@, b@, depth as nat),
        decreases depth, a,
    {
        match (a, b) {
            (AllObjects::Integer(x), AllObjects::Integer(y)) => Ok(x.value == y.value),
            (AllObjects::StringObj(x), AllObjects::StringObj(y)) => Ok(x.value == y.value),
            (AllObjects::Boolean(x), AllObjects::Boolean(y)) => Ok(x.value == y.value),
            (AllObjects::Null(_), AllObjects::Null(_)) => Ok(true),
            (AllObjects::CompiledFunction(f), AllObjects::CompiledFunction(g)) => Ok(
                bytes_equal(&f.instructions, &g.instructions),
            ),
            (AllObjects::BuiltinFunction(f), AllObjects::BuiltinFunction(g)) => Ok(
                f.fn_name == g.fn_name,
            ),
            (AllObjects::Closure(f), AllObjects::Closure(g)) => {
                if !bytes_equal(&f.func.instructions, &g.func.instructions) {
                    Ok(false)
                } else {
                    self.equal_lists(&f.free, &g.free, depth)
                }
            },
            (AllObjects::ArrayObj(x), AllObjects::ArrayObj(y)) => {
                match (self.array(x.id), self.array(y.id)) {
                    (Some(xs), Some(ys)) => {
                        if x.id == y.id {
                            Ok(true)
                        } else if depth == 0 {
                            Err(RuntimeError::NestingTooDeep)
                        } else {
                            self.equal_lists(xs, ys, depth - 1)
                        }
                    },
                    _ => Err(RuntimeError::InvalidHandle),
                }
            },
            (AllObjects::HashMap(x), AllObjects::HashMap(y)) => {
                if x.id == y.id && self.hash(x.id).is_some() {
                    return Ok(true);
                }
                match self.inspect_value(a, depth) {
                    Err(e) => Err(e),
                    Ok(s) => match self.inspect_value(b, depth) {
                        Err(e) => Err(e),
                        Ok(t) => Ok(s == t),
                    },
                }
            },
            _ => Ok(false),
        }
    }

    /// Whether two sequences of values are of the same length and equal
    /// element by element.
    pub fn equal_lists(&self, xs: &Vec<AllObjects>, ys: &Vec<AllObjects>, depth: usize) -> (r:
        Result<bool, RuntimeError>)
        ensures
            r == lists_equal(self@, values_of(xs@), values_of(ys@), depth as nat, 0),
        decreases depth, xs,
    {
        if xs.len() != ys.len() {
            return Ok(false);
        }
        let mut i: usize = 0;
        while i < xs.len()
            invariant
                xs@.len() == ys@.len(),
                i <= xs@.len(),
                lists_equal(self@, values_of(xs@), values_of(ys@), depth as nat, i as nat)
                    == lists_equal(self@, values_of(xs@), values_of(ys@), depth as nat, 0),
            decreases xs@.len() - i,
        {
            match self.equal_values(&xs[i], &ys[i], depth) {
                Err(e) => {
                    return Err(e);
                },
                Ok(false) => {
                    return Ok(false);
                },
                Ok(true) => {},
            }
            i += 1;
        }
        Ok(true)
    }
}

/// Once the text of the first `k` elements fails, so does the text of more.
pub proof fn lemma_inspect_elements_fails(
    heap: Seq<Cell>,
    elements: Seq<Value>,
    depth: nat,
    k: nat,
    n: nat,
)
    requires
        k <= n,
        inspect_elements(heap, elements, depth, k) is Err,
    ensures
        inspect_elements(heap, elements, depth, n) == inspect_elements(heap, elements, depth, k),
    decreases n - k,
{
    if k < n {
        lemma_inspect_elements_fails(heap, elements, depth, k, (n - 1) as nat);
    }
}

/// Once the text of the first `k` entries fails, so does the text of more.
pub proof fn lemma_inspect_entries_fails(
    heap: Seq<Cell>,
    entries: Seq<(Value, Value)>,
    depth: nat,
    k: nat,
    n: nat,
)
    requires
        k <= n,
        inspect_entries(heap, entries, depth, k) is Err,
    ensures
        inspect_entries(heap, entries, depth, n) == inspect_entries(heap, entries, depth, k),
    decreases n - k,
{
    if k < n {
        lemma_inspect_entries_fails(heap, entries, depth, k, (n - 1) as nat);
    }
}


impl Heap {
    /// Appends `value` to the array that `id` refers to.
    pub fn array_push(&mut self, id: usize, value: AllObjects) -> (r: Result<(), RuntimeError>)
        ensures
            match array_pushed(old(self)@, id, value@) {
                Err(e) => r == Err::<(), RuntimeError>(e) && final(self)@ == old(self)@,
                Ok(heap) => r is Ok && final(self)@ == heap,
            },
            old(self).wf() ==> final(self).wf(),
    {
        proof {
            if self.wf() && array_pushed(self@, id, value@) is Ok {
                lemma_push_keeps_order(self@, id, value@);
            }
        }
        if id >= self.objects.len() {
            return Err(RuntimeError::InvalidHandle);
        }
        match &mut self.objects[id] {
            HeapObject::Array(elements) => {
                elements.push(value);
            },
            HeapObject::Hash(_) => {
                return Err(RuntimeError::InvalidHandle);
            },
        }
        proof {
            let before = old(self).objects@[id as int]->Array_0@;
            assert(values_of(before.push(value)) =~= values_of(before).push(value@));
            lemma_heap_update(
                *old(self),
                *self,
                id,
                Cell::Array(values_of(before).push(value@)),
            );
        }
        Ok(())
    }

    /// Removes the last element from the array that `id` refers to and
    /// returns it.
    pub fn array_pop(&mut self, id: usize) -> (r: Result<Option<AllObjects>, RuntimeError>)
        ensures
            match array_popped(old(self)@, id) {
                Err(e) => r == Err::<Option<AllObjects>, RuntimeError>(e) && final(self)@ == old(
                    self,
                )@,
                Ok((heap, value)) => r is Ok && final(self)@ == heap && optional_value(r->Ok_0)
                    == value,
            },
            old(self).wf() ==> final(self).wf(),
    {
        proof {
            if self.wf() && array_popped(self@, id) is Ok {
                lemma_pop_keeps_order(self@, id);
            }
        }
        if id >= self.objects.len() {
            return Err(RuntimeError::InvalidHandle);
        }
        if self.array(id).is_none() {
            return Err(RuntimeError::InvalidHandle);
        }
        let popped = match &mut self.objects[id] {
            HeapObject::Array(elements) => elements.pop(),
            HeapObject::Hash(_) => None,
        };
        proof {
            let before = old(self).objects@[id as int]->Array_0@;
            if before.len() > 0 {
                assert(values_of(before.subrange(0, before.len() - 1)) =~= values_of(
                    before,
                ).drop_last());
                lemma_heap_update(
                    *old(self),
                    *self,
                    id,
                    Cell::Array(values_of(before).drop_last()),
                );
            } else {
                lemma_heap_update(*old(self), *self, id, old(self)@[id as int]);
                assert(old(self)@.update(id as int, old(self)@[id as int]) =~= old(self)@);
            }
        }
        Ok(popped)
    }

    /// The position of the first entry whose key equals `key`.
    pub fn position_of_key(&self, entries: &Vec<(AllObjects, AllObjects)>, key: &AllObjects) -> (r:
        Result<Option<usize>, RuntimeError>)
        ensures
            find_key(self@, pairs_of(entries@), key@, 0) == (match r {
                Err(e) => Err::<Option<nat>, RuntimeError>(e),
                Ok(None) => Ok(None),
                Ok(Some(i)) => Ok(Some(i as nat)),
            }),
            r matches Ok(Some(i)) ==> i < entries@.len(),
    {
        let mut i: usize = 0;
        while i < entries.len()
            invariant
                i <= entries@.len(),
                find_key(self@, pairs_of(entries@), key@, i as nat) == find_key(
                    self@,
                    pairs_of(entries@),
                    key@,
                    0,
                ),
            decreases entries@.len() - i,
        {
            match self.same_key(&entries[i].0, key) {
                Err(e) => {
                    return Err(e);
                },
                Ok(true) => {
                    return Ok(Some(i));
                },
                Ok(false) => {},
            }
            i += 1;
        }
        Ok(None)
    }

    /// The value that the hash map `id` holds for `key`, if any.
    pub fn hash_get(&self, id: usize, key: &AllObjects) -> (r: Result<
        Option<AllObjects>,
        RuntimeError,
    >)
        ensures
            match hash_lookup(self@, id, key@) {
                Err(e) => r == Err::<Option<AllObjects>, RuntimeError>(e),
                Ok(value) => r is Ok && optional_value(r->Ok_0) == value,
            },
    {
        let entries = match self.hash(id) {
            None => {
                return Err(RuntimeError::InvalidHandle);
            },
            Some(v) => v,
        };
        match self.position_of_key(entries, key) {
            Err(e) => Err(e),
            Ok(None) => Ok(None),
            Ok(Some(i)) => {
                assert(pairs_of(entries@)[i as int].1 == entries@[i as int].1@);
                Ok(Some(entries[i].1.duplicate()))
            },
        }
    }

    /// Binds `key` to `value` in the hash map `id` and returns the value
    /// that `key` was bound to before.
    pub fn hash_insert(&mut self, id: usize, key: AllObjects, value: AllObjects) -> (r: Result<
        Option<AllObjects>,
        RuntimeError,
    >)
        ensures
            match hash_inserted(old(self)@, id, key@, value@) {
                Err(e) => r == Err::<Option<AllObjects>, RuntimeError>(e) && final(self)@ == old(
                    self,
                )@,
                Ok((heap, previous)) => r is Ok && final(self)@ == heap && optional_value(r->Ok_0)
                    == previous,
            },
            old(self).wf() ==> final(self).wf(),
    {
        proof {
            if self.wf() && hash_inserted(self@, id, key@, value@) is Ok {
                lemma_insert_keeps_order(self@, id, key@, value@);
            }
        }
        let position = match self.hash(id) {
            None => {
                return Err(RuntimeError::InvalidHandle);
            },
            Some(entries) => match self.position_of_key(entries, &key) {
                Err(e) => {
                    return Err(e);
                },
                Ok(p) => p,
            },
        };
        let previous = match &mut self.objects[id] {
            HeapObject::Hash(entries) => {
                match position {
                    None => {
                        entries.push((key, value));
                        None
                    },
                    Some(i) => {
                        let (kept, before) = entries.remove(i);
                        entries.insert(i, (kept, value));
                        Some(before)
                    },
                }
            },
            HeapObject::Array(_) => None,
        };
        proof {
            let before = old(self).objects@[id as int]->Hash_0@;
            match position {
                None => {
                    assert(pairs_of(before.push((key, value))) =~= pairs_of(before).push(
                        (key@, value@),
                    ));
                    lemma_heap_update(
                        *old(self),
                        *self,
                        id,
                        Cell::Hash(pairs_of(before).push((key@, value@))),
                    );
                },
                Some(i) => {
                    let kept = before[i as int].0;
                    assert(pairs_of(before.remove(i as int).insert(i as int, (kept, value)))
                        =~= pairs_of(before).update(i as int, (kept@, value@)));
                    lemma_heap_update(
                        *old(self),
                        *self,
                        id,
                        Cell::Hash(pairs_of(before).update(i as int, (kept@, value@))),
                    );
                },
            }
        }
        Ok(previous)
    }

    /// Removes the entry of `key` from the hash map `id` and returns the
    /// value that `key` was bound to.
    pub fn hash_remove(&mut self, id: usize, key: &AllObjects) -> (r: Result<
        Option<AllObjects>,
        RuntimeError,
    >)
        ensures
            match hash_removed(old(self)@, id, key@) {
                Err(e) => r == Err::<Option<AllObjects>, RuntimeError>(e) && final(self)@ == old(
                    self,
                )@,
                Ok((heap, previous)) => r is Ok && final(self)@ == heap && optional_value(r->Ok_0)
                    == previous,
            },
            old(self).wf() ==> final(self).wf(),
    {
        proof {
            if self.wf() && hash_removed(self@, id, key@) is Ok {
                lemma_delete_keeps_order(self@, id, key@);
            }
        }
        let position = match self.hash(id) {
            None => {
                return Err(RuntimeError::InvalidHandle);
            },
            Some(entries) => match self.position_of_key(entries, key) {
                Err(e) => {
                    return Err(e);
                },
                Ok(p) => p,
            },
        };
        let previous = match &mut self.objects[id] {
            HeapObject::Hash(entries) => {
                match position {
                    None => None,
                    Some(i) => {
                        let (_, before) = entries.remove(i);
                        Some(before)
                    },
                }
            },
            HeapObject::Array(_) => None,
        };
        proof {
            let before = old(self).objects@[id as int]->Hash_0@;
            match position {
                None => {
                    lemma_heap_update(*old(self), *self, id, old(self)@[id as int]);
                    assert(old(self)@.update(id as int, old(self)@[id as int]) =~= old(self)@);
                },
                Some(i) => {
                    assert(pairs_of(before.remove(i as int)) =~= pairs_of(before).remove(
                        i as int,
                    ));
                    lemma_heap_update(
                        *old(self),
                        *self,
                        id,
                        Cell::Hash(pairs_of(before).remove(i as int)),
                    );
                },
            }
        }
        Ok(previous)
    }
}


/// A heap that differs from another in one object stands for the update of
/// what the other stands for.
proof fn lemma_heap_update(before: Heap, after: Heap, id: usize, cell: Cell)
    requires
        after.objects@.len() == before.objects@.len(),
        id < before.objects@.len(),
        forall|j: int|
            0 <= j < before.objects@.len() && j != id ==> after.objects@[j] == before.objects@[j],
        cell_of(after.objects@[id as int]) == cell,
    ensures
        after@ == before@.update(id as int, cell),
{
    assert(after@ =~= before@.update(id as int, cell));
}

} // verus!
