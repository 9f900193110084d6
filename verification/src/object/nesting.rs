//! Why a value has no text, or two values cannot be compared: arrays and
//! hash maps are followed as deep as the heap has objects, and a value that
//! needs more than that contains itself.
use crate::error::RuntimeError;
use crate::object::heap::{
    array_at, hash_at, inspect_elements, inspect_entries, inspect_text, keys_equal, lists_equal,
    printed, values_equal, Cell,
};
use crate::object::Value;
use vstd::prelude::*;
use vstd::set_lib::{lemma_int_range, lemma_len_subset, set_int_range};

verus! {

/// Whether a value refers to the object `id`: it is that array or hash map,
/// or a closure that has captured a value that refers to it.
pub open spec fn mentions(v: Value, id: int) -> bool
    decreases v, 0nat,
{
    match v {
        Value::Array(i) => i == id,
        Value::Hash(i) => i == id,
        Value::Closure(_, xs) => any_mentions(xs, xs.len(), id),
        _ => false,
    }
}

/// Whether one of the first `k` values refers to the object `id`.
pub open spec fn any_mentions(xs: Seq<Value>, k: nat, id: int) -> bool
    decreases xs, k,
{
    if k == 0 || k > xs.len() {
        false
    } else {
        any_mentions(xs, (k - 1) as nat, id) || mentions(xs[k - 1], id)
    }
}

/// Whether the object `id` holds a value that refers to the object `next`.
pub open spec fn holds(heap: Seq<Cell>, id: int, next: int) -> bool {
    0 <= id < heap.len() && match heap[id] {
        Cell::Array(elements) => exists|i: int|
            0 <= i < elements.len() && mentions(#[trigger] elements[i], next),
        Cell::Hash(entries) => exists|i: int|
            0 <= i < entries.len() && (mentions((#[trigger] entries[i]).0, next) || mentions(
                entries[i].1,
                next,
            )),
    }
}

/// Whether `chain` is a chain of objects, each of which holds a value that
/// refers to the next, and to the first of which `v` refers.
pub open spec fn nested_in(heap: Seq<Cell>, v: Value, chain: Seq<int>) -> bool {
    &&& chain.len() >= 1
    &&& mentions(v, chain[0])
    &&& forall|i: int| 0 <= i < chain.len() ==> 0 <= #[trigger] chain[i] < heap.len()
    &&& forall|i: int| 0 <= i < chain.len() - 1 ==> holds(heap, #[trigger] chain[i], chain[i + 1])
}

/// Whether a value contains itself: it refers to a chain of objects in which
/// an object occurs twice.
pub open spec fn contains_itself(heap: Seq<Cell>, v: Value) -> bool {
    exists|chain: Seq<int>, i: int, j: int|
        nested_in(heap, v, chain) && 0 <= i < j < chain.len() && #[trigger] chain[i]
            == #[trigger] chain[j]
}

/// A value among the first `k` that refers to an object makes the whole
/// refer to it.
proof fn lemma_any_mentions(xs: Seq<Value>, k: nat, i: int, id: int)
    requires
        0 <= i < k <= xs.len(),
        mentions(xs[i], id),
    ensures
        any_mentions(xs, k, id),
    decreases k,
{
    if i < k - 1 {
        lemma_any_mentions(xs, (k - 1) as nat, i, id);
    }
}

/// A chain behind an object that a value refers to is a chain behind the
/// value.
proof fn lemma_chain_behind(heap: Seq<Cell>, v: Value, id: int, rest: Seq<int>)
    requires
        mentions(v, id),
        0 <= id < heap.len(),
        rest.len() >= 1 ==> holds(heap, id, rest[0]),
        forall|i: int| 0 <= i < rest.len() ==> 0 <= #[trigger] rest[i] < heap.len(),
        forall|i: int| 0 <= i < rest.len() - 1 ==> holds(heap, #[trigger] rest[i], rest[i + 1]),
    ensures
        nested_in(heap, v, seq![id] + rest),
{
    let chain = seq![id] + rest;
    assert forall|i: int| 0 <= i < chain.len() implies 0 <= #[trigger] chain[i] < heap.len() by {
        if i > 0 {
            assert(chain[i] == rest[i - 1]);
        }
    }
    assert forall|i: int| 0 <= i < chain.len() - 1 implies holds(
        heap,
        #[trigger] chain[i],
        chain[i + 1],
    ) by {
        assert(chain[i + 1] == rest[i]);
        if i > 0 {
            assert(chain[i] == rest[i - 1]);
        }
    }
}

/// Where the text of the first `k` elements fails, the text of one of them
/// fails in that way.
proof fn lemma_failing_element(heap: Seq<Cell>, elements: Seq<Value>, depth: nat, k: nat) -> (i:
    int)
    requires
        k <= elements.len(),
        inspect_elements(heap, elements, depth, k) is Err,
    ensures
        0 <= i < k,
        inspect_text(heap, elements[i], depth) == Err::<Seq<char>, RuntimeError>(
            inspect_elements(heap, elements, depth, k)->Err_0,
        ),
    decreases k,
{
    if inspect_elements(heap, elements, depth, (k - 1) as nat) is Err {
        lemma_failing_element(heap, elements, depth, (k - 1) as nat)
    } else {
        k - 1
    }
}

/// Where the text of the first `k` entries fails, the text of one of their
/// keys or values fails in that way.
proof fn lemma_failing_entry(heap: Seq<Cell>, entries: Seq<(Value, Value)>, depth: nat, k: nat) -> (i:
    int)
    requires
        k <= entries.len(),
        inspect_entries(heap, entries, depth, k) is Err,
    ensures
        0 <= i < k,
        inspect_text(heap, entries[i].0, depth) == Err::<Seq<char>, RuntimeError>(
            inspect_entries(heap, entries, depth, k)->Err_0,
        ) || inspect_text(heap, entries[i].1, depth) == Err::<Seq<char>, RuntimeError>(
            inspect_entries(heap, entries, depth, k)->Err_0,
        ),
    decreases k,
{
    if inspect_entries(heap, entries, depth, (k - 1) as nat) is Err {
        lemma_failing_entry(heap, entries, depth, (k - 1) as nat)
    } else {
        k - 1
    }
}

/// A value whose text needs more than `depth` levels refers to a chain of
/// `depth + 1` objects.
pub proof fn lemma_too_deep_to_print(heap: Seq<Cell>, v: Value, depth: nat) -> (chain: Seq<int>)
    requires
        inspect_text(heap, v, depth) == Err::<Seq<char>, RuntimeError>(
            RuntimeError::NestingTooDeep,
        ),
    ensures
        nested_in(heap, v, chain),
        chain.len() == depth + 1,
    decreases depth,
{
    match v {
        Value::Array(id) => {
            let elements = array_at(heap, id)->Some_0;
            if depth == 0 {
                lemma_chain_behind(heap, v, id as int, Seq::empty());
                seq![id as int] + Seq::<int>::empty()
            } else {
                let i = lemma_failing_element(
                    heap,
                    elements,
                    (depth - 1) as nat,
                    elements.len(),
                );
                let rest = lemma_too_deep_to_print(heap, elements[i], (depth - 1) as nat);
                lemma_chain_behind(heap, v, id as int, rest);
                seq![id as int] + rest
            }
        },
        Value::Hash(id) => {
            let entries = hash_at(heap, id)->Some_0;
            if depth == 0 {
                lemma_chain_behind(heap, v, id as int, Seq::empty());
                seq![id as int] + Seq::<int>::empty()
            } else {
                let i = lemma_failing_entry(heap, entries, (depth - 1) as nat, entries.len());
                let inner = if inspect_text(heap, entries[i].0, (depth - 1) as nat) == Err::<
                    Seq<char>,
                    RuntimeError,
                >(RuntimeError::NestingTooDeep) {
                    entries[i].0
                } else {
                    entries[i].1
                };
                let rest = lemma_too_deep_to_print(heap, inner, (depth - 1) as nat);
                lemma_chain_behind(heap, v, id as int, rest);
                seq![id as int] + rest
            }
        },
        _ => Seq::empty(),
    }
}

/// Where two sequences cannot be compared from `from` on, two of their
/// values at the same place cannot be compared in that way.
proof fn lemma_failing_pair(
    heap: Seq<Cell>,
    xs: Seq<Value>,
    ys: Seq<Value>,
    depth: nat,
    from: nat,
) -> (i: int)
    requires
        lists_equal(heap, xs, ys, depth, from) is Err,
    ensures
        from <= i < xs.len(),
        xs.len() == ys.len(),
        values_equal(heap, xs[i], ys[i], depth) == Err::<bool, RuntimeError>(
            lists_equal(heap, xs, ys, depth, from)->Err_0,
        ),
    decreases xs.len() - from,
{
    if values_equal(heap, xs[from as int], ys[from as int], depth) is Err {
        from as int
    } else {
        lemma_failing_pair(heap, xs, ys, depth, from + 1)
    }
}

/// Two values whose comparison needs more than `depth` levels: one of them
/// refers to a chain of `depth + 1` objects.
pub proof fn lemma_too_deep_to_compare(heap: Seq<Cell>, a: Value, b: Value, depth: nat) -> (chain:
    Seq<int>)
    requires
        values_equal(heap, a, b, depth) == Err::<bool, RuntimeError>(RuntimeError::NestingTooDeep),
    ensures
        nested_in(heap, a, chain) || nested_in(heap, b, chain),
        chain.len() == depth + 1,
    decreases depth, a,
{
    match (a, b) {
        (Value::Closure(f, xs), Value::Closure(g, ys)) => {
            let i = lemma_failing_pair(heap, xs, ys, depth, 0);
            let chain = lemma_too_deep_to_compare(heap, xs[i], ys[i], depth);
            if nested_in(heap, xs[i], chain) {
                lemma_any_mentions(xs, xs.len(), i, chain[0]);
            } else {
                lemma_any_mentions(ys, ys.len(), i, chain[0]);
            }
            chain
        },
        (Value::Array(i), Value::Array(j)) => {
            let xs = array_at(heap, i)->Some_0;
            let ys = array_at(heap, j)->Some_0;
            if depth == 0 {
                lemma_chain_behind(heap, a, i as int, Seq::empty());
                seq![i as int] + Seq::<int>::empty()
            } else {
                let k = lemma_failing_pair(heap, xs, ys, (depth - 1) as nat, 0);
                let rest = lemma_too_deep_to_compare(heap, xs[k], ys[k], (depth - 1) as nat);
                if nested_in(heap, xs[k], rest) {
                    lemma_chain_behind(heap, a, i as int, rest);
                    seq![i as int] + rest
                } else {
                    lemma_chain_behind(heap, b, j as int, rest);
                    seq![j as int] + rest
                }
            }
        },
        (Value::Hash(_), Value::Hash(_)) => {
            if inspect_text(heap, a, depth) is Err {
                lemma_too_deep_to_print(heap, a, depth)
            } else {
                lemma_too_deep_to_print(heap, b, depth)
            }
        },
        _ => Seq::empty(),
    }
}

/// In a chain of more objects than the heap has, an object occurs twice.
pub proof fn lemma_long_chain_repeats(heap: Seq<Cell>, chain: Seq<int>) -> (at: (int, int))
    requires
        chain.len() > heap.len(),
        forall|i: int| 0 <= i < chain.len() ==> 0 <= #[trigger] chain[i] < heap.len(),
    ensures
        0 <= at.0 < at.1 < chain.len(),
        chain[at.0] == chain[at.1],
{
    if chain.no_duplicates() {
        chain.unique_seq_to_set();
        lemma_int_range(0, heap.len() as int);
        assert(chain.to_set().subset_of(set_int_range(0, heap.len() as int))) by {
            assert forall|x: int| chain.to_set().contains(x) implies set_int_range(
                0,
                heap.len() as int,
            ).contains(x) by {
                let i = choose|i: int| 0 <= i < chain.len() && chain[i] == x;
            }
        }
        lemma_len_subset(chain.to_set(), set_int_range(0, heap.len() as int));
        (0, 0)
    } else {
        let (i, j) = choose|i: int, j: int|
            0 <= i < chain.len() && 0 <= j < chain.len() && i != j && chain[i] == chain[j];
        if i < j {
            (i, j)
        } else {
            (j, i)
        }
    }
}

/// A value has no text only where it contains itself.
pub proof fn lemma_unprintable_contains_itself(heap: Seq<Cell>, v: Value)
    requires
        printed(heap, v) == Err::<Seq<char>, RuntimeError>(RuntimeError::NestingTooDeep),
    ensures
        contains_itself(heap, v),
{
    let chain = lemma_too_deep_to_print(heap, v, heap.len());
    let at = lemma_long_chain_repeats(heap, chain);
    assert(nested_in(heap, v, chain) && 0 <= at.0 < at.1 < chain.len() && chain[at.0]
        == chain[at.1]);
}

/// Two values cannot be compared as keys only where one of them contains
/// itself.
pub proof fn lemma_incomparable_contains_itself(heap: Seq<Cell>, a: Value, b: Value)
    requires
        keys_equal(heap, a, b) == Err::<bool, RuntimeError>(RuntimeError::NestingTooDeep),
    ensures
        contains_itself(heap, a) || contains_itself(heap, b),
{
    let chain = lemma_too_deep_to_compare(heap, a, b, heap.len());
    let at = lemma_long_chain_repeats(heap, chain);
    if nested_in(heap, a, chain) {
        assert(nested_in(heap, a, chain) && 0 <= at.0 < at.1 < chain.len() && chain[at.0]
            == chain[at.1]);
    } else {
        assert(nested_in(heap, b, chain) && 0 <= at.0 < at.1 < chain.len() && chain[at.0]
            == chain[at.1]);
    }
}

} // verus!
