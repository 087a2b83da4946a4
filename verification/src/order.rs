//! The canonical order of records keyed by a 32-byte identifier: ascending
//! by the identifier's bytes, which is also the order of its lower-case
//! hexadecimal form. Books publish their keyed records in this order.

use vstd::prelude::*;

use crate::canon::{items, json_hex, json_list, lemma_items_step, push_hex_id};
use crate::types::push_all;

verus! {

/// `a` sorts before `b`: at the first byte where they differ, `a`'s is
/// smaller.
pub open spec fn id_lt(a: [u8; 32], b: [u8; 32]) -> bool {
    exists|k: int|
        0 <= k < 32 && #[trigger] a[k] < b[k] && forall|j: int| 0 <= j < k ==> a[j] == b[j]
}

/// Whether `a` sorts before `b`.
pub fn id_less(a: &[u8; 32], b: &[u8; 32]) -> (r: bool)
    ensures
        r == id_lt(*a, *b),
{
    let mut i: usize = 0;
    while i < 32
        invariant
            i <= 32,
            forall|j: int| 0 <= j < i ==> a[j] == b[j],
        decreases 32 - i,
    {
        if a[i] != b[i] {
            if a[i] < b[i] {
                assert(a[i as int] < b[i as int]);
                return true;
            }
            assert(!id_lt(*a, *b)) by {
                if id_lt(*a, *b) {
                    let k = choose|k: int|
                        0 <= k < 32 && #[trigger] a[k] < b[k] && forall|j: int|
                            0 <= j < k ==> a[j] == b[j];
                    assert(k == i);
                }
            }
            return false;
        }
        i = i + 1;
    }
    false
}

/// `sorted` with position `i` inserted before the first position whose key
/// `keys[i]` sorts before.
pub open spec fn insert_position(sorted: Seq<usize>, i: usize, keys: Seq<[u8; 32]>) -> Seq<usize>
    decreases sorted.len(),
{
    if sorted.len() == 0 {
        seq![i]
    } else if id_lt(keys[i as int], keys[sorted[0] as int]) {
        seq![i] + sorted
    } else {
        seq![sorted[0]] + insert_position(sorted.drop_first(), i, keys)
    }
}

/// The positions `0..n` of `keys`, ordered by insertion sort on the key.
pub open spec fn sort_positions(keys: Seq<[u8; 32]>, n: nat) -> Seq<usize>
    decreases n,
{
    if n == 0 {
        Seq::empty()
    } else {
        insert_position(sort_positions(keys, (n - 1) as nat), (n - 1) as usize, keys)
    }
}

/// The positions of `keys` in ascending key order.
pub open spec fn key_order(keys: Seq<[u8; 32]>) -> Seq<usize> {
    sort_positions(keys, keys.len())
}

/// Inserting at the first position `p` where the new key sorts first is
/// splicing it in at `p`.
proof fn lemma_insert_at(sorted: Seq<usize>, i: usize, keys: Seq<[u8; 32]>, p: int)
    requires
        0 <= p <= sorted.len(),
        forall|j: int| 0 <= j < p ==> !id_lt(keys[i as int], keys[#[trigger] sorted[j] as int]),
        p < sorted.len() ==> id_lt(keys[i as int], keys[sorted[p] as int]),
    ensures
        insert_position(sorted, i, keys) == sorted.subrange(0, p) + seq![i] + sorted.subrange(
            p,
            sorted.len() as int,
        ),
    decreases sorted.len(),
{
    if sorted.len() == 0 {
        assert(seq![i] =~= sorted.subrange(0, p) + seq![i] + sorted.subrange(p, sorted.len() as int));
    } else if p == 0 {
        assert(seq![i] + sorted =~= sorted.subrange(0, p) + seq![i] + sorted.subrange(
            p,
            sorted.len() as int,
        ));
    } else {
        let rest = sorted.drop_first();
        assert forall|j: int| 0 <= j < p - 1 implies !id_lt(keys[i as int], keys[#[trigger] rest[j] as int]) by {
            assert(rest[j] == sorted[j + 1]);
        }
        if p - 1 < rest.len() {
            assert(rest[p - 1] == sorted[p]);
        }
        lemma_insert_at(rest, i, keys, p - 1);
        assert(!id_lt(keys[i as int], keys[sorted[0] as int]));
        assert(seq![sorted[0]] + (rest.subrange(0, p - 1) + seq![i] + rest.subrange(
            p - 1,
            rest.len() as int,
        )) =~= sorted.subrange(0, p) + seq![i] + sorted.subrange(p, sorted.len() as int));
    }
}

/// Every position in `sort_positions(keys, n)` is below `n`, and there are
/// `n` of them.
pub proof fn lemma_sort_positions_bounded(keys: Seq<[u8; 32]>, n: nat)
    ensures
        sort_positions(keys, n).len() == n,
        forall|j: int| 0 <= j < n ==> #[trigger] sort_positions(keys, n)[j] < n,
    decreases n,
{
    if n > 0 {
        let prev = sort_positions(keys, (n - 1) as nat);
        lemma_sort_positions_bounded(keys, (n - 1) as nat);
        lemma_insert_bounded(prev, (n - 1) as usize, keys, n);
    }
}

proof fn lemma_insert_bounded(sorted: Seq<usize>, i: usize, keys: Seq<[u8; 32]>, n: nat)
    requires
        i < n,
        forall|j: int| 0 <= j < sorted.len() ==> #[trigger] sorted[j] < n,
    ensures
        insert_position(sorted, i, keys).len() == sorted.len() + 1,
        forall|j: int|
            0 <= j < sorted.len() + 1 ==> #[trigger] insert_position(sorted, i, keys)[j] < n,
    decreases sorted.len(),
{
    if sorted.len() > 0 && !id_lt(keys[i as int], keys[sorted[0] as int]) {
        let rest = sorted.drop_first();
        lemma_insert_bounded(rest, i, keys, n);
        let tail = insert_position(rest, i, keys);
        assert forall|j: int| 0 <= j < sorted.len() + 1 implies #[trigger] insert_position(
            sorted,
            i,
            keys,
        )[j] < n by {
            if j > 0 {
                assert(insert_position(sorted, i, keys)[j] == tail[j - 1]);
            }
        }
    }
}

/// The positions of `keys` in ascending key order.
pub fn sorted_positions(keys: &Vec<[u8; 32]>) -> (r: Vec<usize>)
    ensures
        r@ == key_order(keys@),
        r@.len() == keys@.len(),
        forall|j: int| 0 <= j < r@.len() ==> #[trigger] r@[j] < keys@.len(),
{
    let mut order: Vec<usize> = Vec::new();
    let mut i: usize = 0;
    while i < keys.len()
        invariant
            i <= keys@.len(),
            order@ == sort_positions(keys@, i as nat),
        decreases keys@.len() - i,
    {
        proof {
            lemma_sort_positions_bounded(keys@, i as nat);
        }
        let mut p: usize = 0;
        while p < order.len() && !id_less(&keys[i], &keys[order[p]])
            invariant
                i < keys@.len(),
                p <= order@.len(),
                order@ == sort_positions(keys@, i as nat),
                forall|j: int| 0 <= j < order@.len() ==> #[trigger] order@[j] < i,
                forall|j: int| 0 <= j < p ==> !id_lt(keys@[i as int], keys@[#[trigger] order@[j] as int]),
            decreases order@.len() - p,
        {
            p = p + 1;
        }
        let ghost before = order@;
        proof {
            lemma_insert_at(before, i, keys@, p as int);
        }
        order.insert(p, i);
        assert(order@ =~= before.subrange(0, p as int) + seq![i] + before.subrange(
            p as int,
            before.len() as int,
        ));
        i = i + 1;
    }
    proof {
        lemma_sort_positions_bounded(keys@, keys@.len());
    }
    order
}

/// One entry `"key":value` of a keyed JSON object.
pub open spec fn key_entry(keys: Seq<[u8; 32]>, values: Seq<Seq<u8>>) -> spec_fn(usize) -> Seq<u8> {
    |p: usize| json_hex(keys[p as int]) + seq![58u8] + values[p as int]
}

/// A JSON object mapping each key, as lower-case hexadecimal, to its value,
/// in ascending key order.
pub open spec fn json_object(keys: Seq<[u8; 32]>, values: Seq<Seq<u8>>) -> Seq<u8> {
    seq![123u8] + items(key_order(keys), key_entry(keys, values)) + seq![125u8]
}

/// A JSON list of the keys, as lower-case hexadecimal strings, in ascending
/// order.
pub open spec fn json_key_set(keys: Seq<[u8; 32]>) -> Seq<u8> {
    json_list(key_order(keys), |p: usize| json_hex(keys[p as int]))
}

/// The bytes of each encoded value.
pub open spec fn views(values: Seq<Vec<u8>>) -> Seq<Seq<u8>> {
    values.map_values(|v: Vec<u8>| v@)
}

/// Appends the keyed JSON object of `keys` and `values`.
pub fn write_object(out: &mut Vec<u8>, keys: &Vec<[u8; 32]>, values: &Vec<Vec<u8>>)
    requires
        keys@.len() == values@.len(),
    ensures
        final(out)@ == old(out)@ + json_object(keys@, views(values@)),
{
    let order = sorted_positions(keys);
    let ghost enc = key_entry(keys@, views(values@));
    let mut part: Vec<u8> = Vec::new();
    part.push(123u8);
    let mut k: usize = 0;
    while k < order.len()
        invariant
            k <= order@.len(),
            order@ == key_order(keys@),
            order@.len() == keys@.len(),
            keys@.len() == values@.len(),
            forall|j: int| 0 <= j < order@.len() ==> #[trigger] order@[j] < keys@.len(),
            enc == key_entry(keys@, views(values@)),
            part@ == seq![123u8] + items(order@.subrange(0, k as int), enc),
        decreases order@.len() - k,
    {
        proof {
            lemma_items_step(order@, k as int, enc);
        }
        if k > 0 {
            part.push(44u8);
        }
        let p = order[k];
        push_hex_id(&mut part, &keys[p]);
        part.push(58u8);
        push_all(&mut part, values[p].as_slice());
        assert(part@ =~= seq![123u8] + items(order@.subrange(0, (k + 1) as int), enc));
        k = k + 1;
    }
    assert(order@.subrange(0, order@.len() as int) =~= order@);
    part.push(125u8);
    assert(part@ =~= json_object(keys@, views(values@)));
    push_all(out, part.as_slice());
}

/// Appends the JSON list of the keys in ascending order.
pub fn write_key_set(out: &mut Vec<u8>, keys: &Vec<[u8; 32]>)
    ensures
        final(out)@ == old(out)@ + json_key_set(keys@),
{
    let order = sorted_positions(keys);
    let ghost enc = |p: usize| json_hex(keys@[p as int]);
    let mut part: Vec<u8> = Vec::new();
    part.push(91u8);
    let mut k: usize = 0;
    while k < order.len()
        invariant
            k <= order@.len(),
            order@ == key_order(keys@),
            order@.len() == keys@.len(),
            forall|j: int| 0 <= j < order@.len() ==> #[trigger] order@[j] < keys@.len(),
            enc == (|p: usize| json_hex(keys@[p as int])),
            part@ == seq![91u8] + items(order@.subrange(0, k as int), enc),
        decreases order@.len() - k,
    {
        proof {
            lemma_items_step(order@, k as int, enc);
        }
        if k > 0 {
            part.push(44u8);
        }
        push_hex_id(&mut part, &keys[order[k]]);
        assert(part@ =~= seq![91u8] + items(order@.subrange(0, (k + 1) as int), enc));
        k = k + 1;
    }
    assert(order@.subrange(0, order@.len() as int) =~= order@);
    part.push(93u8);
    assert(part@ =~= json_key_set(keys@));
    push_all(out, part.as_slice());
}

/// Mapping one more element extends the mapped prefix by its image.
pub proof fn lemma_map_prefix_push<T, U>(acc: Seq<U>, x: U, s: Seq<T>, i: int, f: spec_fn(T) -> U)
    requires
        0 <= i < s.len(),
        acc == s.subrange(0, i).map_values(f),
        x == f(s[i]),
    ensures
        acc.push(x) == s.subrange(0, i + 1).map_values(f),
{
    assert(acc.push(x) =~= s.subrange(0, i + 1).map_values(f));
}

/// The views of the encodings grow with each encoding pushed.
pub proof fn lemma_views_push(values: Seq<Vec<u8>>, v: Vec<u8>)
    ensures
        views(values.push(v)) == views(values).push(v@),
{
    assert(views(values.push(v)) =~= views(values).push(v@));
}

/// The whole prefix is the sequence.
pub proof fn lemma_map_full<T, U>(s: Seq<T>, f: spec_fn(T) -> U)
    ensures
        s.subrange(0, s.len() as int).map_values(f) == s.map_values(f),
{
    assert(s.subrange(0, s.len() as int) =~= s);
}

} // verus!
