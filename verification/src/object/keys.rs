//! Hash keys whose equality does not depend on the heap, and what holds of
//! the entries of a hash map because of them.
//!
//! A key that is an array or a hash map can be changed after it was
//! inserted, so nothing can be promised of such keys for good. Every other
//! key is *plain*: it is equal to another value exactly where both have the
//! same key form, whatever the heap holds. No hash map that the machine
//! builds holds a plain key twice.
use crate::error::RuntimeError;
use crate::object::heap::{
    array_popped, array_pushed, find_key, hash_at, hash_inserted, hash_lookup, hash_removed,
    lists_equal, values_equal, Cell,
};
use crate::object::objects::{Builtin, BuiltinModel, FunctionModel};
use crate::object::Value;
use vstd::prelude::*;

verus! {

/// Whether a value refers to no object of the heap: it is no array and no
/// hash map, and where it is a closure, it has captured plain values only.
pub open spec fn plain(v: Value) -> bool
    decreases v, 0nat,
{
    match v {
        Value::Array(_) => false,
        Value::Hash(_) => false,
        Value::Closure(_, xs) => all_plain(xs, xs.len()),
        _ => true,
    }
}

/// Whether the first `k` values are plain.
pub open spec fn all_plain(xs: Seq<Value>, k: nat) -> bool
    decreases xs, k,
{
    if k == 0 || k > xs.len() {
        true
    } else {
        all_plain(xs, (k - 1) as nat) && plain(xs[k - 1])
    }
}

/// What of a value counts when it is compared as a key: of a function its
/// instructions, of a builtin function its name, of a closure the
/// instructions of its function and the key forms of what it captured, of
/// every other value all of it.
pub open spec fn key_form(v: Value) -> Value
    decreases v, 0nat,
{
    match v {
        Value::CompiledFunction(f) => Value::CompiledFunction(
            FunctionModel { instructions: f.instructions, num_args: 0, num_locals: 0 },
        ),
        Value::BuiltinFunction(f) => Value::BuiltinFunction(
            BuiltinModel { name: f.name, num_params: 0, func: Builtin::Len },
        ),
        Value::Closure(f, xs) => Value::Closure(
            FunctionModel { instructions: f.instructions, num_args: 0, num_locals: 0 },
            key_forms(xs, xs.len()),
        ),
        _ => v,
    }
}

/// The key forms of the first `k` values.
pub open spec fn key_forms(xs: Seq<Value>, k: nat) -> Seq<Value>
    decreases xs, k,
{
    if k == 0 || k > xs.len() {
        Seq::empty()
    } else {
        key_forms(xs, (k - 1) as nat).push(key_form(xs[k - 1]))
    }
}

/// The key forms of values, one by one.
pub proof fn lemma_key_forms(xs: Seq<Value>, k: nat)
    requires
        k <= xs.len(),
    ensures
        key_forms(xs, k).len() == k,
        forall|i: int| 0 <= i < k ==> #[trigger] key_forms(xs, k)[i] == key_form(xs[i]),
    decreases k,
{
    if k > 0 {
        lemma_key_forms(xs, (k - 1) as nat);
    }
}

/// The first `k` values are plain where each of them is.
pub proof fn lemma_all_plain(xs: Seq<Value>, k: nat)
    requires
        k <= xs.len(),
    ensures
        all_plain(xs, k) <==> (forall|i: int| 0 <= i < k ==> plain(#[trigger] xs[i])),
    decreases k,
{
    if k > 0 {
        lemma_all_plain(xs, (k - 1) as nat);
    }
}

/// A value is equal to a plain value exactly where both have the same key
/// form, whatever the heap holds and however deep it is followed.
pub proof fn lemma_equal_to_plain(heap: Seq<Cell>, a: Value, b: Value, depth: nat)
    requires
        plain(b),
    ensures
        values_equal(heap, a, b, depth) == Ok::<bool, RuntimeError>(key_form(a) == key_form(b)),
    decreases a, 0nat,
{
    match (a, b) {
        (Value::Closure(f, xs), Value::Closure(g, ys)) => {
            lemma_all_plain(ys, ys.len());
            lemma_key_forms(xs, xs.len());
            lemma_key_forms(ys, ys.len());
            lemma_lists_equal_to_plain(heap, xs, ys, depth, 0);
            let same = xs.len() == ys.len() && forall|i: int|
                0 <= i < xs.len() ==> key_form(#[trigger] xs[i]) == key_form(ys[i]);
            if same {
                assert(key_forms(xs, xs.len()) =~= key_forms(ys, ys.len()));
            } else if xs.len() == ys.len() {
                let i = choose|i: int|
                    0 <= i < xs.len() && key_form(#[trigger] xs[i]) != key_form(ys[i]);
                assert(key_forms(xs, xs.len())[i] != key_forms(ys, ys.len())[i]);
            }
        },
        _ => {},
    }
}

/// Two sequences of values, the second of them plain, are equal from `from`
/// on exactly where they are equally long and have the same key forms from
/// there on.
pub proof fn lemma_lists_equal_to_plain(
    heap: Seq<Cell>,
    xs: Seq<Value>,
    ys: Seq<Value>,
    depth: nat,
    from: nat,
)
    requires
        forall|i: int| 0 <= i < ys.len() ==> plain(#[trigger] ys[i]),
    ensures
        lists_equal(heap, xs, ys, depth, from) == Ok::<bool, RuntimeError>(
            xs.len() == ys.len() && forall|i: int|
                from <= i < xs.len() ==> key_form(#[trigger] xs[i]) == key_form(ys[i]),
        ),
    decreases xs, xs.len() - from,
{
    if xs.len() == ys.len() && from < xs.len() {
        lemma_equal_to_plain(heap, xs[from as int], ys[from as int], depth);
        lemma_lists_equal_to_plain(heap, xs, ys, depth, from + 1);
        if key_form(xs[from as int]) == key_form(ys[from as int]) {
            assert forall|i: int| from <= i < xs.len() && (forall|j: int|
                from + 1 <= j < xs.len() ==> key_form(#[trigger] xs[j]) == key_form(
                    ys[j],
                )) implies key_form(#[trigger] xs[i]) == key_form(ys[i]) by {}
        }
    }
}

/// Values with the same key form are both plain or both not.
pub proof fn lemma_same_form_same_plainness(a: Value, b: Value)
    requires
        key_form(a) == key_form(b),
    ensures
        plain(a) == plain(b),
    decreases a, 0nat,
{
    match (a, b) {
        (Value::Closure(f, xs), Value::Closure(g, ys)) => {
            lemma_key_forms(xs, xs.len());
            lemma_key_forms(ys, ys.len());
            lemma_all_plain(xs, xs.len());
            lemma_all_plain(ys, ys.len());
            assert(xs.len() == ys.len());
            assert forall|i: int| 0 <= i < xs.len() implies plain(#[trigger] xs[i]) == plain(
                ys[i],
            ) by {
                assert(key_forms(xs, xs.len())[i] == key_forms(ys, ys.len())[i]);
                lemma_same_form_same_plainness(xs[i], ys[i]);
            }
            if plain(a) {
                assert forall|i: int| 0 <= i < ys.len() implies plain(#[trigger] ys[i]) by {
                    assert(plain(xs[i]));
                }
            }
            if plain(b) {
                assert forall|i: int| 0 <= i < xs.len() implies plain(#[trigger] xs[i]) by {
                    assert(plain(ys[i]));
                }
            }
        },
        _ => {},
    }
}

/// A plain key is found at the first entry from `from` on whose key has the
/// same key form, and is not found where there is none. The search for a
/// plain key never fails.
pub proof fn lemma_find_plain_key(
    heap: Seq<Cell>,
    entries: Seq<(Value, Value)>,
    key: Value,
    from: nat,
)
    requires
        plain(key),
    ensures
        match find_key(heap, entries, key, from) {
            Err(_) => false,
            Ok(None) => forall|i: int|
                from <= i < entries.len() ==> key_form((#[trigger] entries[i]).0) != key_form(key),
            Ok(Some(at)) => from <= at < entries.len() && key_form(entries[at as int].0)
                == key_form(key) && forall|i: int|
                from <= i < at ==> key_form((#[trigger] entries[i]).0) != key_form(key),
        },
    decreases entries.len() - from,
{
    if from < entries.len() {
        lemma_equal_to_plain(heap, entries[from as int].0, key, heap.len());
        lemma_find_plain_key(heap, entries, key, from + 1);
    }
}

/// Whether no plain key occurs twice among the entries: no entry has a plain
/// key that an earlier entry has too.
pub open spec fn distinct_plain_keys(entries: Seq<(Value, Value)>) -> bool {
    forall|i: int, j: int|
        0 <= i < j < entries.len() && plain((#[trigger] entries[j]).0) ==> key_form(
            (#[trigger] entries[i]).0,
        ) != key_form(entries[j].0)
}

/// Whether no hash map of the heap holds a plain key twice.
pub open spec fn heap_in_order(heap: Seq<Cell>) -> bool {
    forall|id: int|
        0 <= id < heap.len() ==> match #[trigger] heap[id] {
            Cell::Array(_) => true,
            Cell::Hash(entries) => distinct_plain_keys(entries),
        }
}

/// Binding a key keeps the entries free of repeated plain keys.
pub proof fn lemma_entries_with_key(
    heap: Seq<Cell>,
    entries: Seq<(Value, Value)>,
    key: Value,
    value: Value,
)
    requires
        distinct_plain_keys(entries),
    ensures
        match find_key(heap, entries, key, 0) {
            Err(_) => true,
            Ok(None) => distinct_plain_keys(entries.push((key, value))),
            Ok(Some(at)) => at < entries.len() ==> distinct_plain_keys(
                entries.update(at as int, (entries[at as int].0, value)),
            ),
        },
{
    match find_key(heap, entries, key, 0) {
        Err(_) => {},
        Ok(None) => {
            let after = entries.push((key, value));
            if plain(key) {
                lemma_find_plain_key(heap, entries, key, 0);
            }
            assert forall|i: int, j: int|
                0 <= i < j < after.len() && plain((#[trigger] after[j]).0) implies key_form(
                (#[trigger] after[i]).0,
            ) != key_form(after[j].0) by {
                if j < entries.len() {
                    assert(after[i] == entries[i] && after[j] == entries[j]);
                } else {
                    assert(after[i] == entries[i]);
                }
            }
        },
        Ok(Some(at)) => {
            if at < entries.len() {
                let after = entries.update(at as int, (entries[at as int].0, value));
                assert forall|i: int, j: int|
                    0 <= i < j < after.len() && plain((#[trigger] after[j]).0) implies key_form(
                    (#[trigger] after[i]).0,
                ) != key_form(after[j].0) by {
                    assert(after[i].0 == entries[i].0 && after[j].0 == entries[j].0);
                }
            }
        },
    }
}

/// Removing an entry keeps the entries free of repeated plain keys.
pub proof fn lemma_entries_without(entries: Seq<(Value, Value)>, at: int)
    requires
        distinct_plain_keys(entries),
        0 <= at < entries.len(),
    ensures
        distinct_plain_keys(entries.remove(at)),
{
    let after = entries.remove(at);
    assert forall|i: int, j: int|
        0 <= i < j < after.len() && plain((#[trigger] after[j]).0) implies key_form(
        (#[trigger] after[i]).0,
    ) != key_form(after[j].0) by {
        let a = if i < at {
            i
        } else {
            i + 1
        };
        let b = if j < at {
            j
        } else {
            j + 1
        };
        assert(after[i] == entries[a] && after[j] == entries[b]);
    }
}

/// A found position lies among the entries.
pub proof fn lemma_found_in_range(
    heap: Seq<Cell>,
    entries: Seq<(Value, Value)>,
    key: Value,
    from: nat,
)
    ensures
        find_key(heap, entries, key, from) matches Ok(Some(at)) ==> from <= at < entries.len(),
    decreases entries.len() - from,
{
    if from < entries.len() {
        lemma_found_in_range(heap, entries, key, from + 1);
    }
}

/// `insert` keeps the heap in order.
pub proof fn lemma_insert_keeps_order(heap: Seq<Cell>, id: usize, key: Value, value: Value)
    requires
        heap_in_order(heap),
        hash_inserted(heap, id, key, value) is Ok,
    ensures
        heap_in_order(hash_inserted(heap, id, key, value)->Ok_0.0),
{
    let entries = hash_at(heap, id)->Some_0;
    assert(heap[id as int] == Cell::Hash(entries));
    lemma_entries_with_key(heap, entries, key, value);
    lemma_found_in_range(heap, entries, key, 0);
    let after = hash_inserted(heap, id, key, value)->Ok_0.0;
    assert forall|other: int| 0 <= other < after.len() implies match #[trigger] after[other] {
        Cell::Array(_) => true,
        Cell::Hash(es) => distinct_plain_keys(es),
    } by {
        if other != id {
            assert(after[other] == heap[other]);
        }
    }
}

/// `delete` keeps the heap in order.
pub proof fn lemma_delete_keeps_order(heap: Seq<Cell>, id: usize, key: Value)
    requires
        heap_in_order(heap),
        hash_removed(heap, id, key) is Ok,
    ensures
        heap_in_order(hash_removed(heap, id, key)->Ok_0.0),
{
    let entries = hash_at(heap, id)->Some_0;
    assert(heap[id as int] == Cell::Hash(entries));
    lemma_found_in_range(heap, entries, key, 0);
    if let Ok(Some(at)) = find_key(heap, entries, key, 0) {
        lemma_entries_without(entries, at as int);
    }
    let after = hash_removed(heap, id, key)->Ok_0.0;
    assert forall|other: int| 0 <= other < after.len() implies match #[trigger] after[other] {
        Cell::Array(_) => true,
        Cell::Hash(es) => distinct_plain_keys(es),
    } by {
        if other != id {
            assert(after[other] == heap[other]);
        }
    }
}

/// `push` keeps the heap in order.
pub proof fn lemma_push_keeps_order(heap: Seq<Cell>, id: usize, value: Value)
    requires
        heap_in_order(heap),
        array_pushed(heap, id, value) is Ok,
    ensures
        heap_in_order(array_pushed(heap, id, value)->Ok_0),
{
    let after = array_pushed(heap, id, value)->Ok_0;
    assert forall|other: int| 0 <= other < after.len() implies match #[trigger] after[other] {
        Cell::Array(_) => true,
        Cell::Hash(es) => distinct_plain_keys(es),
    } by {
        if other != id {
            assert(after[other] == heap[other]);
        }
    }
}

/// `pop` keeps the heap in order.
pub proof fn lemma_pop_keeps_order(heap: Seq<Cell>, id: usize)
    requires
        heap_in_order(heap),
        array_popped(heap, id) is Ok,
    ensures
        heap_in_order(array_popped(heap, id)->Ok_0.0),
{
    let after = array_popped(heap, id)->Ok_0.0;
    assert forall|other: int| 0 <= other < after.len() implies match #[trigger] after[other] {
        Cell::Array(_) => true,
        Cell::Hash(es) => distinct_plain_keys(es),
    } by {
        if other != id {
            assert(after[other] == heap[other]);
        }
    }
}

/// A new object keeps the heap in order, where it is an array or a hash map
/// that holds no plain key twice.
pub proof fn lemma_new_object_keeps_order(heap: Seq<Cell>, cell: Cell)
    requires
        heap_in_order(heap),
        cell matches Cell::Hash(entries) ==> distinct_plain_keys(entries),
    ensures
        heap_in_order(heap.push(cell)),
{
    let after = heap.push(cell);
    assert forall|other: int| 0 <= other < after.len() implies match #[trigger] after[other] {
        Cell::Array(_) => true,
        Cell::Hash(es) => distinct_plain_keys(es),
    } by {
        if other < heap.len() {
            assert(after[other] == heap[other]);
        }
    }
}

/// After `insert`, the hash map holds the value for the key, where the key
/// is plain; and it has one entry more exactly where it had none for the
/// key.
pub proof fn lemma_inserted_key_is_found(heap: Seq<Cell>, id: usize, key: Value, value: Value)
    requires
        plain(key),
        hash_at(heap, id) is Some,
    ensures
        hash_inserted(heap, id, key, value) is Ok,
        hash_inserted(heap, id, key, value)->Ok_0.1 == hash_lookup(heap, id, key)->Ok_0,
        hash_lookup(hash_inserted(heap, id, key, value)->Ok_0.0, id, key) == Ok::<
            Option<Value>,
            RuntimeError,
        >(Some(value)),
        hash_at(hash_inserted(heap, id, key, value)->Ok_0.0, id)->Some_0.len() == hash_at(
            heap,
            id,
        )->Some_0.len() + (if hash_lookup(heap, id, key)->Ok_0 is None {
            1int
        } else {
            0int
        }),
{
    let entries = hash_at(heap, id)->Some_0;
    lemma_find_plain_key(heap, entries, key, 0);
    let after = hash_inserted(heap, id, key, value)->Ok_0.0;
    let changed = hash_at(after, id)->Some_0;
    lemma_find_plain_key(after, changed, key, 0);
    match find_key(heap, entries, key, 0) {
        Ok(None) => {
            assert(changed == entries.push((key, value)));
            assert(changed[entries.len() as int].0 == key);
            assert forall|i: int| 0 <= i < entries.len() implies key_form(
                (#[trigger] changed[i]).0,
            ) != key_form(key) by {
                assert(changed[i] == entries[i]);
            }
        },
        Ok(Some(at)) => {
            assert(changed == entries.update(at as int, (entries[at as int].0, value)));
            assert forall|i: int| 0 <= i < at implies key_form((#[trigger] changed[i]).0)
                != key_form(key) by {
                assert(changed[i] == entries[i]);
            }
            assert(changed[at as int].0 == entries[at as int].0);
        },
        Err(_) => {},
    }
}

/// After `delete`, the key is gone, where it is plain and the heap is in
/// order.
pub proof fn lemma_deleted_key_is_gone(heap: Seq<Cell>, id: usize, key: Value)
    requires
        heap_in_order(heap),
        plain(key),
        hash_at(heap, id) is Some,
    ensures
        hash_removed(heap, id, key) is Ok,
        hash_removed(heap, id, key)->Ok_0.1 == hash_lookup(heap, id, key)->Ok_0,
        hash_lookup(hash_removed(heap, id, key)->Ok_0.0, id, key) == Ok::<
            Option<Value>,
            RuntimeError,
        >(None),
{
    let entries = hash_at(heap, id)->Some_0;
    assert(heap[id as int] == Cell::Hash(entries));
    lemma_find_plain_key(heap, entries, key, 0);
    let after = hash_removed(heap, id, key)->Ok_0.0;
    let changed = hash_at(after, id)->Some_0;
    lemma_find_plain_key(after, changed, key, 0);
    match find_key(heap, entries, key, 0) {
        Ok(None) => {
            assert(changed == entries);
        },
        Ok(Some(at)) => {
            assert(changed == entries.remove(at as int));
            assert forall|i: int| 0 <= i < changed.len() implies key_form(
                (#[trigger] changed[i]).0,
            ) != key_form(key) by {
                if i < at {
                    assert(changed[i] == entries[i]);
                } else {
                    assert(changed[i] == entries[i + 1]);
                    if plain(entries[i + 1].0) {
                        assert(key_form(entries[at as int].0) != key_form(entries[i + 1].0));
                    } else if key_form(entries[i + 1].0) == key_form(key) {
                        lemma_same_form_same_plainness(entries[i + 1].0, key);
                    }
                }
            }
        },
        Err(_) => {},
    }
}


/// `insert` changes nothing for the other keys: a plain key with another key
/// form than the inserted one maps as before.
pub proof fn lemma_insert_keeps_other_keys(
    heap: Seq<Cell>,
    id: usize,
    key: Value,
    value: Value,
    other: Value,
)
    requires
        plain(key),
        plain(other),
        key_form(other) != key_form(key),
        hash_at(heap, id) is Some,
    ensures
        hash_lookup(hash_inserted(heap, id, key, value)->Ok_0.0, id, other) == hash_lookup(
            heap,
            id,
            other,
        ),
{
    let entries = hash_at(heap, id)->Some_0;
    let after = hash_inserted(heap, id, key, value)->Ok_0.0;
    let changed = hash_at(after, id)->Some_0;
    lemma_find_plain_key(heap, entries, key, 0);
    lemma_find_plain_key(heap, entries, other, 0);
    lemma_find_plain_key(after, changed, other, 0);
    assert(entries.len() <= changed.len());
    assert forall|i: int| 0 <= i < entries.len() implies (#[trigger] changed[i]).0
        == entries[i].0 by {}
    match (find_key(heap, entries, other, 0), find_key(after, changed, other, 0)) {
        (Ok(Some(a)), Ok(Some(b))) => {
            assert(changed[a as int].0 == entries[a as int].0);
            if b < entries.len() {
                assert(changed[b as int].0 == entries[b as int].0);
            }
            assert(a == b);
        },
        (Ok(Some(a)), Ok(None)) => {
            assert(changed[a as int].0 == entries[a as int].0);
        },
        (Ok(None), Ok(Some(b))) => {
            if b < entries.len() {
                assert(changed[b as int].0 == entries[b as int].0);
            }
        },
        _ => {},
    }
}

/// `delete` changes nothing for the other keys: a plain key with another key
/// form than the deleted one maps as before.
pub proof fn lemma_delete_keeps_other_keys(heap: Seq<Cell>, id: usize, key: Value, other: Value)
    requires
        plain(key),
        plain(other),
        key_form(other) != key_form(key),
        hash_at(heap, id) is Some,
    ensures
        hash_lookup(hash_removed(heap, id, key)->Ok_0.0, id, other) == hash_lookup(
            heap,
            id,
            other,
        ),
{
    let entries = hash_at(heap, id)->Some_0;
    let after = hash_removed(heap, id, key)->Ok_0.0;
    let changed = hash_at(after, id)->Some_0;
    lemma_find_plain_key(heap, entries, key, 0);
    lemma_find_plain_key(heap, entries, other, 0);
    lemma_find_plain_key(after, changed, other, 0);
    match find_key(heap, entries, key, 0) {
        Ok(Some(at)) => {
            assert(changed == entries.remove(at as int));
            let shift = |i: int|
                if i < at {
                    i
                } else {
                    i + 1
                };
            assert forall|i: int| 0 <= i < changed.len() implies #[trigger] changed[i]
                == entries[shift(i)] by {}
            match (find_key(heap, entries, other, 0), find_key(after, changed, other, 0)) {
                (Ok(Some(a)), Ok(Some(b))) => {
                    let back = if a < at {
                        a as int
                    } else {
                        a - 1
                    };
                    assert(changed[back] == entries[a as int]);
                    assert(changed[b as int] == entries[shift(b as int)]);
                    if shift(b as int) < a {
                        assert(key_form(entries[shift(b as int)].0) != key_form(other));
                    }
                    if back < b {
                        assert(key_form(changed[back].0) != key_form(other));
                    }
                    assert(shift(b as int) == a);
                },
                (Ok(Some(a)), Ok(None)) => {
                    let back = if a < at {
                        a as int
                    } else {
                        a - 1
                    };
                    assert(changed[back] == entries[a as int]);
                },
                (Ok(None), Ok(Some(b))) => {
                    assert(changed[b as int] == entries[shift(b as int)]);
                },
                _ => {},
            }
        },
        _ => {
            assert(changed == entries);
            assert(after =~= heap);
        },
    }
}

/// `delete` undoes `insert`: where a hash map has no entry for a plain key,
/// inserting the key and deleting it again returns the inserted value and
/// leaves the heap as it was.
pub proof fn lemma_delete_undoes_insert(heap: Seq<Cell>, id: usize, key: Value, value: Value)
    requires
        plain(key),
        hash_lookup(heap, id, key) == Ok::<Option<Value>, RuntimeError>(None),
    ensures
        hash_removed(hash_inserted(heap, id, key, value)->Ok_0.0, id, key) == Ok::<
            (Seq<Cell>, Option<Value>),
            RuntimeError,
        >((heap, Some(value))),
{
    let entries = hash_at(heap, id)->Some_0;
    let after = hash_inserted(heap, id, key, value)->Ok_0.0;
    let changed = hash_at(after, id)->Some_0;
    lemma_find_plain_key(heap, entries, key, 0);
    lemma_find_plain_key(after, changed, key, 0);
    assert(changed == entries.push((key, value)));
    assert(changed[entries.len() as int].0 == key);
    assert forall|i: int| 0 <= i < entries.len() implies key_form((#[trigger] changed[i]).0)
        != key_form(key) by {
        assert(changed[i] == entries[i]);
    }
    assert(find_key(after, changed, key, 0) == Ok::<Option<nat>, RuntimeError>(
        Some(entries.len()),
    ));
    assert(changed.remove(entries.len() as int) =~= entries);
    assert(after.update(id as int, Cell::Hash(entries)) =~= heap);
}

} // verus!
