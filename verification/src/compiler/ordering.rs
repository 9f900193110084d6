//! The order in which the pairs of a hash literal are compiled: by the text
//! of their keys.
use crate::ast::{expression_text, AllExpressions};
use vstd::prelude::*;
use vstd::utf8::encode_utf8;

verus! {

/// Whether `a` comes before `b`, or is equal to it, in the order of byte
/// strings: the first byte that differs decides, and a prefix comes first.
pub open spec fn bytes_le(a: Seq<u8>, b: Seq<u8>) -> bool
    decreases a.len(),
{
    if a.len() == 0 {
        true
    } else if b.len() == 0 {
        false
    } else if a[0] != b[0] {
        a[0] < b[0]
    } else {
        bytes_le(a.drop_first(), b.drop_first())
    }
}

/// Whether `a` comes before `b`, or is equal to it, in the order of byte
/// strings.
pub fn bytes_before_or_same(a: &[u8], b: &[u8]) -> (r: bool)
    ensures
        r == bytes_le(a@, b@),
{
    let mut i: usize = 0;
    let a_len: usize = a.len();
    let b_len: usize = b.len();
    assert(a@.subrange(0, a@.len() as int) =~= a@);
    assert(b@.subrange(0, b@.len() as int) =~= b@);
    while i < a_len && i < b_len
        invariant
            a_len == a@.len(),
            b_len == b@.len(),
            i <= a_len,
            i <= b_len,
            bytes_le(a@, b@) == bytes_le(
                a@.subrange(i as int, a@.len() as int),
                b@.subrange(i as int, b@.len() as int),
            ),
        decreases a_len - i,
    {
        let ghost rest_a = a@.subrange(i as int, a@.len() as int);
        let ghost rest_b = b@.subrange(i as int, b@.len() as int);
        assert(rest_a[0] == a@[i as int] && rest_b[0] == b@[i as int]);
        if a[i] != b[i] {
            return a[i] < b[i];
        }
        assert(rest_a.drop_first() =~= a@.subrange(i as int + 1, a@.len() as int));
        assert(rest_b.drop_first() =~= b@.subrange(i as int + 1, b@.len() as int));
        i += 1;
    }
    i >= a_len
}

/// The sorted sequence of indices `order` with the index `i` put in: behind
/// the indices whose keys come before the key of `i` or are equal to it, and
/// in front of the others.
pub open spec fn ordered_insert(order: Seq<int>, keys: Seq<Seq<u8>>, i: int) -> Seq<int>
    decreases order.len(),
{
    if order.len() == 0 {
        seq![i]
    } else if bytes_le(keys[order.last()], keys[i]) {
        order.push(i)
    } else {
        ordered_insert(order.drop_last(), keys, i).push(order.last())
    }
}

/// The first `k` indices in the order of their keys. Indices with the same
/// key stay in their order.
pub open spec fn sorted_indices(keys: Seq<Seq<u8>>, k: nat) -> Seq<int>
    decreases k,
{
    if k == 0 {
        Seq::empty()
    } else {
        ordered_insert(sorted_indices(keys, (k - 1) as nat), keys, k - 1)
    }
}

/// The keys of the pairs of a hash literal as they are ordered: the UTF-8
/// bytes of their texts.
pub open spec fn key_bytes(pairs: Seq<(AllExpressions, AllExpressions)>) -> Seq<Seq<u8>> {
    Seq::new(pairs.len(), |i: int| encode_utf8(expression_text(pairs[i].0)))
}

/// The order in which the pairs of a hash literal are compiled: by the text
/// of their keys, byte by byte.
pub open spec fn emission_order(pairs: Seq<(AllExpressions, AllExpressions)>) -> Seq<int> {
    sorted_indices(key_bytes(pairs), pairs.len())
}

/// The indices of a sequence as integers.
pub open spec fn as_indices(order: Seq<usize>) -> Seq<int> {
    Seq::new(order.len(), |i: int| order[i] as int)
}

/// Inserting behind a suffix of larger keys is inserting into the rest.
proof fn lemma_ordered_insert_split(order: Seq<int>, keys: Seq<Seq<u8>>, i: int, at: int)
    requires
        0 <= at <= order.len(),
        forall|j: int| at <= j < order.len() ==> !bytes_le(keys[#[trigger] order[j]], keys[i]),
    ensures
        ordered_insert(order, keys, i) == ordered_insert(order.subrange(0, at), keys, i)
            + order.subrange(at, order.len() as int),
    decreases order.len() - at,
{
    if at == order.len() {
        assert(order.subrange(0, at) =~= order);
        assert(ordered_insert(order, keys, i) + order.subrange(at, order.len() as int)
            =~= ordered_insert(order, keys, i));
    } else {
        let shorter = order.drop_last();
        assert(!bytes_le(keys[order[order.len() - 1]], keys[i]));
        lemma_ordered_insert_split(shorter, keys, i, at);
        assert(shorter.subrange(0, at) =~= order.subrange(0, at));
        assert((ordered_insert(order.subrange(0, at), keys, i) + shorter.subrange(
            at,
            shorter.len() as int,
        )).push(order.last()) =~= ordered_insert(order.subrange(0, at), keys, i)
            + order.subrange(at, order.len() as int));
    }
}

/// Returns the indices of the pairs in the order of the texts of their keys.
pub fn key_order(pairs: &Vec<(AllExpressions, AllExpressions)>) -> (order: Vec<usize>)
    ensures
        as_indices(order@) == emission_order(pairs@),
        order@.len() == pairs@.len(),
        forall|i: int| 0 <= i < order@.len() ==> order@[i] < pairs@.len(),
{
    let mut texts: Vec<String> = Vec::new();
    let mut t: usize = 0;
    while t < pairs.len()
        invariant
            t <= pairs@.len(),
            texts@.len() == t,
            forall|j: int| 0 <= j < t ==> texts@[j]@ == expression_text(pairs@[j].0),
        decreases pairs@.len() - t,
    {
        texts.push(pairs[t].0.text());
        t += 1;
    }
    let ghost keys = key_bytes(pairs@);
    let mut order: Vec<usize> = Vec::new();
    let mut i: usize = 0;
    assert(as_indices(order@) =~= sorted_indices(keys, 0));
    while i < pairs.len()
        invariant
            i <= pairs@.len(),
            texts@.len() == pairs@.len(),
            keys == key_bytes(pairs@),
            forall|j: int| 0 <= j < texts@.len() ==> texts@[j]@ == expression_text(pairs@[j].0),
            order@.len() == i,
            forall|j: int| 0 <= j < order@.len() ==> order@[j] < i,
            as_indices(order@) == sorted_indices(keys, i as nat),
        decreases pairs@.len() - i,
    {
        let mut at: usize = order.len();
        while at > 0 && !bytes_before_or_same(
            texts[order[at - 1]].as_str().as_bytes(),
            texts[i].as_str().as_bytes(),
        )
            invariant
                at <= order@.len(),
                i < pairs@.len(),
                texts@.len() == pairs@.len(),
                keys == key_bytes(pairs@),
                forall|j: int|
                    0 <= j < texts@.len() ==> texts@[j]@ == expression_text(pairs@[j].0),
                forall|j: int| 0 <= j < order@.len() ==> order@[j] < i,
                forall|j: int|
                    at <= j < order@.len() ==> !bytes_le(
                        keys[#[trigger] as_indices(order@)[j]],
                        keys[i as int],
                    ),
            decreases at,
        {
            at -= 1;
        }
        proof {
            let before = as_indices(order@);
            lemma_ordered_insert_split(before, keys, i as int, at as int);
            if at > 0 {
                let front = before.subrange(0, at as int);
                assert(front.last() == order@[at - 1] as int);
                assert(bytes_le(keys[front.last()], keys[i as int]));
                assert(ordered_insert(front, keys, i as int) == front.push(i as int));
            } else {
                assert(before.subrange(0, 0).len() == 0);
            }
            assert(as_indices(order@.insert(at as int, i)) =~= ordered_insert(
                before,
                keys,
                i as int,
            ));
        }
        order.insert(at, i);
        i += 1;
    }
    order
}


/// Of two byte strings, one comes before the other or is equal to it.
pub proof fn lemma_bytes_le_total(a: Seq<u8>, b: Seq<u8>)
    ensures
        bytes_le(a, b) || bytes_le(b, a),
    decreases a.len(),
{
    if a.len() > 0 && b.len() > 0 && a[0] == b[0] {
        lemma_bytes_le_total(a.drop_first(), b.drop_first());
    }
}

/// Two byte strings that come before each other are the same.
pub proof fn lemma_bytes_le_antisymmetric(a: Seq<u8>, b: Seq<u8>)
    requires
        bytes_le(a, b),
        bytes_le(b, a),
    ensures
        a == b,
    decreases a.len(),
{
    if a.len() == 0 || b.len() == 0 {
        assert(a =~= b);
    } else {
        lemma_bytes_le_antisymmetric(a.drop_first(), b.drop_first());
        assert(a =~= seq![a[0]] + a.drop_first());
        assert(b =~= seq![b[0]] + b.drop_first());
    }
}

/// The order of byte strings is transitive.
pub proof fn lemma_bytes_le_transitive(a: Seq<u8>, b: Seq<u8>, c: Seq<u8>)
    requires
        bytes_le(a, b),
        bytes_le(b, c),
    ensures
        bytes_le(a, c),
    decreases a.len(),
{
    if a.len() > 0 && b.len() > 0 && c.len() > 0 && a[0] == b[0] && b[0] == c[0] {
        lemma_bytes_le_transitive(a.drop_first(), b.drop_first(), c.drop_first());
    }
}

/// Whether `v` is one of the indices in `s`.
pub open spec fn occurs(s: Seq<int>, v: int) -> bool {
    exists|x: int| 0 <= x < s.len() && s[x] == v
}

/// Whether `key` is one of the keys in `s`.
pub open spec fn holds_key(s: Seq<Seq<u8>>, key: Seq<u8>) -> bool {
    exists|x: int| 0 <= x < s.len() && s[x] == key
}

/// Whether the keys at the indices of `order` do not decrease.
pub open spec fn sorted_by_key(order: Seq<int>, keys: Seq<Seq<u8>>) -> bool {
    forall|x: int, y: int|
        0 <= x < y < order.len() ==> bytes_le(keys[#[trigger] order[x]], keys[#[trigger] order[y]])
}

/// In a sorted sequence of indices, the key at an earlier place comes before
/// the key at a later place or is equal to it.
proof fn lemma_sorted_at(order: Seq<int>, keys: Seq<Seq<u8>>, x: int, y: int)
    requires
        sorted_by_key(order, keys),
        0 <= x < y < order.len(),
    ensures
        bytes_le(keys[order[x]], keys[order[y]]),
{
}

/// Putting an index into a sorted sequence of indices keeps it sorted, adds
/// the index and nothing else, and repeats no index.
pub proof fn lemma_ordered_insert(order: Seq<int>, keys: Seq<Seq<u8>>, i: int)
    requires
        sorted_by_key(order, keys),
        order.no_duplicates(),
        !occurs(order, i),
    ensures
        ordered_insert(order, keys, i).len() == order.len() + 1,
        sorted_by_key(ordered_insert(order, keys, i), keys),
        ordered_insert(order, keys, i).no_duplicates(),
        forall|v: int|
            occurs(ordered_insert(order, keys, i), v) <==> (v == i || occurs(order, v)),
    decreases order.len(),
{
    let r = ordered_insert(order, keys, i);
    if order.len() == 0 {
        assert(r[0] == i);
        assert forall|v: int| occurs(r, v) <==> (v == i || occurs(order, v)) by {
            if occurs(r, v) {
                let x = choose|x: int| 0 <= x < r.len() && r[x] == v;
            }
        }
    } else if bytes_le(keys[order.last()], keys[i]) {
        assert(r == order.push(i));
        assert forall|x: int, y: int| 0 <= x < y < r.len() implies bytes_le(
            keys[#[trigger] r[x]],
            keys[#[trigger] r[y]],
        ) by {
            if y == order.len() {
                if x < order.len() - 1 {
                    assert(bytes_le(keys[order[x]], keys[order[order.len() - 1]]));
                    lemma_bytes_le_transitive(keys[order[x]], keys[order.last()], keys[i]);
                }
            } else {
                assert(r[x] == order[x] && r[y] == order[y]);
            }
        }
        assert forall|x: int, y: int| 0 <= x < r.len() && 0 <= y < r.len() && x != y implies r[x]
            != r[y] by {
            if x < order.len() && y < order.len() {
                assert(order[x] != order[y]);
            } else if x < order.len() {
                assert(occurs(order, order[x]));
            } else {
                assert(occurs(order, order[y]));
            }
        }
        assert forall|v: int| occurs(r, v) <==> (v == i || occurs(order, v)) by {
            if occurs(r, v) {
                let x = choose|x: int| 0 <= x < r.len() && r[x] == v;
                if x < order.len() {
                    assert(order[x] == v);
                }
            }
            if v == i {
                assert(r[order.len() as int] == i);
            }
            if occurs(order, v) {
                let x = choose|x: int| 0 <= x < order.len() && order[x] == v;
                assert(r[x] == v);
            }
        }
    } else {
        let shorter = order.drop_last();
        let last = order.last();
        let inner = ordered_insert(shorter, keys, i);
        assert forall|x: int, y: int| 0 <= x < y < shorter.len() implies bytes_le(
            keys[#[trigger] shorter[x]],
            keys[#[trigger] shorter[y]],
        ) by {
            assert(shorter[x] == order[x] && shorter[y] == order[y]);
        }
        assert forall|x: int, y: int|
            0 <= x < shorter.len() && 0 <= y < shorter.len() && x != y implies shorter[x]
            != shorter[y] by {
            assert(shorter[x] == order[x] && shorter[y] == order[y]);
        }
        assert(!occurs(shorter, i)) by {
            if occurs(shorter, i) {
                let x = choose|x: int| 0 <= x < shorter.len() && shorter[x] == i;
                assert(order[x] == i);
            }
        }
        lemma_ordered_insert(shorter, keys, i);
        assert(inner.len() == shorter.len() + 1);
        assert(sorted_by_key(inner, keys));
        assert(forall|v: int| occurs(inner, v) <==> (v == i || occurs(shorter, v)));
        assert(r == inner.push(last));
        lemma_bytes_le_total(keys[last], keys[i]);
        assert(occurs(order, last)) by {
            assert(order[order.len() - 1] == last);
        }
        assert(!occurs(shorter, last)) by {
            if occurs(shorter, last) {
                let x = choose|x: int| 0 <= x < shorter.len() && shorter[x] == last;
                assert(order[x] == order[order.len() - 1]);
            }
        }
        assert forall|x: int, y: int| 0 <= x < y < r.len() implies bytes_le(
            keys[#[trigger] r[x]],
            keys[#[trigger] r[y]],
        ) by {
            if y == inner.len() {
                assert(r[y] == last);
                assert(r[x] == inner[x]);
                assert(occurs(inner, inner[x]));
                if inner[x] != i {
                    let z = choose|z: int| 0 <= z < shorter.len() && shorter[z] == inner[x];
                    lemma_sorted_at(order, keys, z, order.len() - 1);
                    assert(order[z] == inner[x]);
                }
            } else {
                assert(r[x] == inner[x] && r[y] == inner[y]);
            }
        }
        assert forall|x: int, y: int| 0 <= x < r.len() && 0 <= y < r.len() && x != y implies r[x]
            != r[y] by {
            if x < inner.len() && y < inner.len() {
                assert(inner[x] != inner[y]);
            } else if x < inner.len() {
                assert(occurs(inner, inner[x]));
            } else {
                assert(occurs(inner, inner[y]));
            }
        }
        assert forall|v: int| occurs(r, v) <==> (v == i || occurs(order, v)) by {
            if occurs(r, v) {
                let x = choose|x: int| 0 <= x < r.len() && r[x] == v;
                if x < inner.len() {
                    assert(occurs(inner, v));
                    if v != i {
                        let z = choose|z: int| 0 <= z < shorter.len() && shorter[z] == v;
                        assert(order[z] == v);
                    }
                }
            }
            if v == i {
                assert(occurs(inner, i));
                let x = choose|x: int| 0 <= x < inner.len() && inner[x] == i;
                assert(r[x] == i);
            }
            if occurs(order, v) {
                let z = choose|z: int| 0 <= z < order.len() && order[z] == v;
                if z < shorter.len() {
                    assert(shorter[z] == v);
                    assert(occurs(inner, v));
                    let x = choose|x: int| 0 <= x < inner.len() && inner[x] == v;
                    assert(r[x] == v);
                } else {
                    assert(r[inner.len() as int] == v);
                }
            }
        }
    }
}

/// The first `k` indices in the order of their keys are sorted by key, and
/// each of them occurs exactly once.
pub proof fn lemma_sorted_indices(keys: Seq<Seq<u8>>, k: nat)
    ensures
        sorted_indices(keys, k).len() == k,
        sorted_by_key(sorted_indices(keys, k), keys),
        sorted_indices(keys, k).no_duplicates(),
        forall|v: int| occurs(sorted_indices(keys, k), v) <==> 0 <= v < k,
    decreases k,
{
    if k > 0 {
        let before = sorted_indices(keys, (k - 1) as nat);
        lemma_sorted_indices(keys, (k - 1) as nat);
        lemma_ordered_insert(before, keys, k - 1);
        assert(sorted_indices(keys, k) == ordered_insert(before, keys, k - 1));
        assert forall|v: int| occurs(sorted_indices(keys, k), v) <==> 0 <= v < k by {
            assert(occurs(before, v) <==> 0 <= v < k - 1);
        }
    } else {
        assert forall|v: int| occurs(sorted_indices(keys, k), v) <==> 0 <= v < k by {
            if occurs(sorted_indices(keys, k), v) {
                let x = choose|x: int| 0 <= x < 0 && sorted_indices(keys, k)[x] == v;
            }
        }
    }
}

/// Whether the keys do not decrease and no key occurs twice.
pub open spec fn strictly_sorted(keys: Seq<Seq<u8>>) -> bool {
    forall|x: int, y: int|
        0 <= x < y < keys.len() ==> bytes_le(#[trigger] keys[x], #[trigger] keys[y]) && keys[x]
            != keys[y]
}

/// Two strictly sorted sequences that hold the same keys are the same.
pub proof fn lemma_strictly_sorted_unique(u: Seq<Seq<u8>>, v: Seq<Seq<u8>>, i: int)
    requires
        u.len() == v.len(),
        strictly_sorted(u),
        strictly_sorted(v),
        forall|x: int| 0 <= x < u.len() ==> holds_key(v, #[trigger] u[x]),
        forall|x: int| 0 <= x < v.len() ==> holds_key(u, #[trigger] v[x]),
        0 <= i < u.len(),
    ensures
        u[i] == v[i],
    decreases i,
{
    assert(holds_key(v, u[i]));
    assert(holds_key(u, v[i]));
    let t = choose|t: int| 0 <= t < v.len() && v[t] == u[i];
    let s = choose|s: int| 0 <= s < u.len() && u[s] == v[i];
    if t < i {
        lemma_strictly_sorted_unique(u, v, t);
        assert(u[t] != u[i]);
    } else if s < i {
        lemma_strictly_sorted_unique(u, v, s);
        assert(v[s] != v[i]);
    } else if t > i && s > i {
        assert(bytes_le(u[i], u[s]));
        assert(bytes_le(v[i], v[t]));
        lemma_bytes_le_antisymmetric(u[i], v[i]);
    }
}

/// Whether `perm` lists each of the indices below `n` exactly once.
pub open spec fn is_permutation(perm: Seq<int>, n: nat) -> bool {
    &&& perm.len() == n
    &&& perm.no_duplicates()
    &&& forall|v: int| occurs(perm, v) <==> 0 <= v < n
}

/// The pairs of a hash literal in the order in which they are compiled.
pub open spec fn ordered_pairs(pairs: Seq<(AllExpressions, AllExpressions)>) -> Seq<
    (AllExpressions, AllExpressions),
> {
    Seq::new(pairs.len(), |x: int| pairs[emission_order(pairs)[x]])
}

/// Whether no two keys of the pairs have the same text.
pub open spec fn distinct_key_texts(pairs: Seq<(AllExpressions, AllExpressions)>) -> bool {
    forall|i: int, j: int|
        0 <= i < pairs.len() && 0 <= j < pairs.len() && i != j ==> expression_text(pairs[i].0)
            != expression_text(pairs[j].0)
}

/// The order in which the pairs of a hash literal are compiled does not
/// depend on the order in which they are given: where no two keys have the
/// same text, the pairs of `first` and the same pairs rearranged by `perm`
/// come out in the same order.
pub proof fn lemma_ordered_pairs_of_rearranged(
    first: Seq<(AllExpressions, AllExpressions)>,
    second: Seq<(AllExpressions, AllExpressions)>,
    perm: Seq<int>,
)
    requires
        distinct_key_texts(first),
        is_permutation(perm, first.len()),
        second.len() == first.len(),
        forall|i: int| 0 <= i < second.len() ==> second[i] == first[perm[i]],
    ensures
        ordered_pairs(first) == ordered_pairs(second),
{
    let n = first.len();
    let keys_p = key_bytes(first);
    let keys_q = key_bytes(second);
    let order_p = emission_order(first);
    let order_q = emission_order(second);
    lemma_sorted_indices(keys_p, n);
    lemma_sorted_indices(keys_q, n);
    assert forall|i: int| 0 <= i < n implies 0 <= #[trigger] perm[i] < n by {
        assert(occurs(perm, perm[i]));
    }
    assert forall|x: int| 0 <= x < n implies 0 <= #[trigger] order_p[x] < n by {
        assert(occurs(order_p, order_p[x]));
    }
    assert forall|x: int| 0 <= x < n implies 0 <= #[trigger] order_q[x] < n by {
        assert(occurs(order_q, order_q[x]));
    }
    assert forall|i: int, j: int| 0 <= i < n && 0 <= j < n && i != j implies keys_p[i]
        != keys_p[j] by {
        vstd::utf8::encode_utf8_decode_utf8(expression_text(first[i].0));
        vstd::utf8::encode_utf8_decode_utf8(expression_text(first[j].0));
    }
    let u = Seq::new(n, |x: int| keys_p[order_p[x]]);
    let v = Seq::new(n, |x: int| keys_q[order_q[x]]);
    assert(strictly_sorted(u)) by {
        assert forall|x: int, y: int| 0 <= x < y < u.len() implies bytes_le(
            #[trigger] u[x],
            #[trigger] u[y],
        ) && u[x] != u[y] by {
            assert(bytes_le(keys_p[order_p[x]], keys_p[order_p[y]]));
            assert(order_p[x] != order_p[y]);
        }
    }
    assert(strictly_sorted(v)) by {
        assert forall|x: int, y: int| 0 <= x < y < v.len() implies bytes_le(
            #[trigger] v[x],
            #[trigger] v[y],
        ) && v[x] != v[y] by {
            assert(bytes_le(keys_q[order_q[x]], keys_q[order_q[y]]));
            assert(order_q[x] != order_q[y]);
            assert(perm[order_q[x]] != perm[order_q[y]]);
            assert(keys_q[order_q[x]] == keys_p[perm[order_q[x]]]);
            assert(keys_q[order_q[y]] == keys_p[perm[order_q[y]]]);
        }
    }
    assert forall|x: int| 0 <= x < u.len() implies holds_key(v, #[trigger] u[x]) by {
        let a = order_p[x];
        assert(occurs(perm, a));
        let j = choose|j: int| 0 <= j < perm.len() && perm[j] == a;
        assert(occurs(order_q, j));
        let y = choose|y: int| 0 <= y < order_q.len() && order_q[y] == j;
        assert(v[y] == keys_q[j]);
        assert(keys_q[j] == keys_p[perm[j]]);
    }
    assert forall|y: int| 0 <= y < v.len() implies holds_key(u, #[trigger] v[y]) by {
        let b = perm[order_q[y]];
        assert(keys_q[order_q[y]] == keys_p[b]);
        assert(occurs(order_p, b));
        let x = choose|x: int| 0 <= x < order_p.len() && order_p[x] == b;
        assert(u[x] == keys_p[b]);
    }
    assert forall|x: int| 0 <= x < n implies ordered_pairs(first)[x] == ordered_pairs(
        second,
    )[x] by {
        lemma_strictly_sorted_unique(u, v, x);
        let a = order_p[x];
        let b = perm[order_q[x]];
        assert(u[x] == keys_p[a]);
        assert(v[x] == keys_q[order_q[x]]);
        assert(keys_q[order_q[x]] == keys_p[b]);
        assert(a == b);
        assert(second[order_q[x]] == first[b]);
    }
    assert(ordered_pairs(first) =~= ordered_pairs(second));
}

} // verus!
