//! Laws of the layered mapping, proved over the mathematical model.
//!
//! The container's methods state their contracts over `stack_lookup` and the
//! borrowed-key predicates of `crate::map`. The proof functions here relate
//! those statements to each other: what a lookup finds after an insert, a
//! push, a pop, or an in-place mutation of a lower layer.

use vstd::prelude::*;
use vstd::std_specs::hash::borrowed_key_removed;
use vstd::std_specs::hash::contains_borrowed_key;
use vstd::std_specs::hash::maps_borrowed_key_to_value;

use crate::map::map_updated_at_borrowed_key;
use crate::map::stack_contains_borrowed_key;
use crate::map::stack_lookup;
use crate::map::stack_maps_borrowed_key_to_value;
use crate::map::stack_updated_at_borrowed_key;

verus! {

/// The index of the highest layer containing `k`; meaningful only when some
/// layer does contain `k`.
pub open spec fn top_layer_index<K, V>(layers: Seq<Map<K, V>>, k: K) -> int
    decreases layers.len(),
{
    if layers.len() == 0 {
        -1
    } else if layers.last().contains_key(k) {
        layers.len() - 1
    } else {
        top_layer_index(layers.drop_last(), k)
    }
}

/// If layer `i` contains `k` and no higher layer does, the effective value
/// of `k` is the one found in layer `i`.
pub proof fn lemma_stack_lookup_at<K, V>(layers: Seq<Map<K, V>>, k: K, i: int)
    requires
        0 <= i < layers.len(),
        layers[i].contains_key(k),
        forall|j: int| i < j < layers.len() ==> !(#[trigger] layers[j]).contains_key(k),
    ensures
        stack_lookup(layers, k) == Some(layers[i][k]),
    decreases layers.len(),
{
    if i < layers.len() - 1 {
        assert(!layers.last().contains_key(k));
        assert forall|j: int|
            i < j < layers.drop_last().len() implies !(#[trigger] layers.drop_last()[j]).contains_key(
            k,
        ) by {
            assert(layers.drop_last()[j] == layers[j]);
        }
        lemma_stack_lookup_at(layers.drop_last(), k, i);
        assert(layers.drop_last()[i] == layers[i]);
    }
}

/// A lookup finds some value exactly when some layer contains the key.
pub proof fn lemma_stack_lookup_some<K, V>(layers: Seq<Map<K, V>>, k: K)
    ensures
        (stack_lookup(layers, k) is Some) <==> exists|i: int|
            0 <= i < layers.len() && (#[trigger] layers[i]).contains_key(k),
    decreases layers.len(),
{
    if layers.len() == 0 {
    } else if layers.last().contains_key(k) {
        assert(layers[layers.len() - 1].contains_key(k));
    } else {
        lemma_stack_lookup_some(layers.drop_last(), k);
        if stack_lookup(layers, k) is Some {
            let i = choose|i: int|
                0 <= i < layers.drop_last().len() && (#[trigger] layers.drop_last()[i]).contains_key(
                    k,
                );
            assert(layers[i].contains_key(k));
        }
        if exists|i: int| 0 <= i < layers.len() && (#[trigger] layers[i]).contains_key(k) {
            let i = choose|i: int| 0 <= i < layers.len() && (#[trigger] layers[i]).contains_key(k);
            assert(layers.drop_last()[i] == layers[i]);
            assert(layers.drop_last()[i].contains_key(k));
        }
    }
}

/// The highest layer containing `k` is where a lookup finds its value, and
/// no layer above it contains `k`.
pub proof fn lemma_top_layer_index<K, V>(layers: Seq<Map<K, V>>, k: K)
    requires
        stack_lookup(layers, k) is Some,
    ensures
        ({
            let t = top_layer_index(layers, k);
            &&& 0 <= t < layers.len()
            &&& layers[t].contains_key(k)
            &&& stack_lookup(layers, k) == Some(layers[t][k])
            &&& forall|j: int| t < j < layers.len() ==> !(#[trigger] layers[j]).contains_key(k)
        }),
    decreases layers.len(),
{
    if !layers.last().contains_key(k) {
        lemma_top_layer_index(layers.drop_last(), k);
        let t = top_layer_index(layers, k);
        assert(layers.drop_last()[t] == layers[t]);
        assert forall|j: int| t < j < layers.len() implies !(#[trigger] layers[j]).contains_key(
            k,
        ) by {
            if j < layers.len() - 1 {
                assert(layers.drop_last()[j] == layers[j]);
            }
        }
    }
}

/// Rebinding `k` in any one layer leaves the effective value of every other
/// key unchanged.
pub proof fn lemma_update_other_key<K, V>(layers: Seq<Map<K, V>>, i: int, k: K, v: V, k2: K)
    requires
        0 <= i < layers.len(),
        k2 != k,
    ensures
        stack_lookup(layers.update(i, layers[i].insert(k, v)), k2) == stack_lookup(layers, k2),
    decreases layers.len(),
{
    let s2 = layers.update(i, layers[i].insert(k, v));
    if i == layers.len() - 1 {
        assert(s2.last() == layers.last().insert(k, v));
        if !layers.last().contains_key(k2) {
            assert(!s2.last().contains_key(k2));
            assert(s2.drop_last() =~= layers.drop_last());
        }
    } else {
        assert(s2.last() == layers.last());
        if !layers.last().contains_key(k2) {
            assert(s2.drop_last() =~= layers.drop_last().update(
                i,
                layers.drop_last()[i].insert(k, v),
            ));
            lemma_update_other_key(layers.drop_last(), i, k, v, k2);
        }
    }
}

/// For a key in owned form, "some layer contains the borrowed key" — the
/// statement `get` and `get_mut` make about absent keys — is the same as a
/// lookup on the model finding some value.
pub proof fn lemma_stack_contains_key_owned<K, V>(layers: Seq<Map<K, V>>, k: K)
    ensures
        stack_contains_borrowed_key(layers, &k) <==> (stack_lookup(layers, k) is Some),
{
    lemma_stack_lookup_some(layers, k);
    if stack_contains_borrowed_key(layers, &k) {
        let i = choose|i: int|
            0 <= i < layers.len() && #[trigger] contains_borrowed_key(layers[i], &k);
        assert(layers[i].contains_key(k));
    }
    if stack_lookup(layers, k) is Some {
        let i = choose|i: int| 0 <= i < layers.len() && (#[trigger] layers[i]).contains_key(k);
        assert(contains_borrowed_key(layers[i], &k));
    }
}

/// For a key in owned form, the statement `get` makes about found keys is
/// the same as the lookup on the model returning exactly that value.
pub proof fn lemma_stack_maps_to_value_owned<K, V>(layers: Seq<Map<K, V>>, k: K, v: V)
    ensures
        stack_maps_borrowed_key_to_value(layers, &k, v) <==> (stack_lookup(layers, k) == Some(v)),
{
    if stack_maps_borrowed_key_to_value(layers, &k, v) {
        let i = choose|i: int|
            {
                &&& 0 <= i < layers.len()
                &&& #[trigger] maps_borrowed_key_to_value(layers[i], &k, v)
                &&& forall|j: int|
                    i < j < layers.len() ==> !contains_borrowed_key(#[trigger] layers[j], &k)
            };
        assert(layers[i].contains_key(k) && layers[i][k] == v);
        assert forall|j: int| i < j < layers.len() implies !(#[trigger] layers[j]).contains_key(
            k,
        ) by {
            assert(!contains_borrowed_key(layers[j], &k));
        }
        lemma_stack_lookup_at(layers, k, i);
    }
    if stack_lookup(layers, k) == Some(v) {
        lemma_top_layer_index(layers, k);
        let t = top_layer_index(layers, k);
        assert(maps_borrowed_key_to_value(layers[t], &k, v));
        assert forall|j: int|
            t < j < layers.len() implies !contains_borrowed_key(#[trigger] layers[j], &k) by {
            assert(!layers[j].contains_key(k));
        }
        assert(stack_maps_borrowed_key_to_value(layers, &k, v));
    }
}

/// For a key in owned form, the in-place-update statement `get_mut` makes
/// about a single layer says exactly that the layer is its old self with
/// `k` rebound to `v`.
pub proof fn lemma_map_updated_owned<K, V>(m1: Map<K, V>, m2: Map<K, V>, k: K, v: V)
    requires
        map_updated_at_borrowed_key(m1, m2, &k, v),
    ensures
        m2 == m1.insert(k, v),
{
    let w = choose|w: Map<K, V>|
        #[trigger] borrowed_key_removed(m1, w, &k) && borrowed_key_removed(m2, w, &k);
    assert(w == m1.remove(k));
    assert(w == m2.remove(k));
    assert(m2.contains_key(k) && m2[k] == v);
    assert forall|x: K| #[trigger] m2.contains_key(x) <==> m1.insert(k, v).contains_key(x) by {
        if x != k {
            assert(m2.remove(k).contains_key(x) == m2.contains_key(x));
            assert(m1.remove(k).contains_key(x) == m1.contains_key(x));
        }
    }
    assert forall|x: K| m2.contains_key(x) implies #[trigger] m2[x] == m1.insert(k, v)[x] by {
        if x != k {
            assert(m2.remove(k)[x] == m2[x]);
            assert(m1.remove(k)[x] == m1[x]);
        }
    }
    assert(m2 =~= m1.insert(k, v));
}

/// Law: a mutable lookup that rebinds `k` to `v` in place — in whichever
/// layer held the effective binding, not necessarily the top one — makes
/// `v` the effective value of `k` for the whole stack, leaves the effective
/// value of every other key unchanged, and changes no other layer; in
/// particular it creates no duplicate entry in the top layer.
pub proof fn lemma_stack_updated_owned<K, V>(s1: Seq<Map<K, V>>, s2: Seq<Map<K, V>>, k: K, v: V)
    requires
        stack_updated_at_borrowed_key(s1, s2, &k, v),
    ensures
        s2.len() == s1.len(),
        stack_lookup(s2, k) == Some(v),
        forall|k2: K| k2 != k ==> stack_lookup(s2, k2) == stack_lookup(s1, k2),
{
    let i = choose|i: int|
        {
            &&& 0 <= i < s1.len()
            &&& s2 == s1.update(i, s2[i])
            &&& #[trigger] map_updated_at_borrowed_key(s1[i], s2[i], &k, v)
            &&& forall|j: int| i < j < s1.len() ==> !contains_borrowed_key(#[trigger] s1[j], &k)
        };
    lemma_map_updated_owned(s1[i], s2[i], k, v);
    assert(s2[i].contains_key(k) && s2[i][k] == v);
    assert forall|j: int| i < j < s2.len() implies !(#[trigger] s2[j]).contains_key(k) by {
        assert(s2[j] == s1[j]);
        assert(!contains_borrowed_key(s1[j], &k));
    }
    lemma_stack_lookup_at(s2, k, i);
    assert forall|k2: K| k2 != k implies stack_lookup(s2, k2) == stack_lookup(s1, k2) by {
        assert(s2 =~= s1.update(i, s1[i].insert(k, v)));
        lemma_update_other_key(s1, i, k, v, k2);
    }
}

/// Law: an insert into the top layer followed immediately by a lookup of
/// the same key returns the inserted value, and the effective value of
/// every other key is unchanged.
pub proof fn lemma_insert_then_lookup<K, V>(layers: Seq<Map<K, V>>, k: K, v: V, k2: K)
    requires
        layers.len() >= 1,
    ensures
        stack_lookup(layers.update(layers.len() - 1, layers.last().insert(k, v)), k) == Some(v),
        k2 != k ==> stack_lookup(layers.update(layers.len() - 1, layers.last().insert(k, v)), k2)
            == stack_lookup(layers, k2),
{
    let s2 = layers.update(layers.len() - 1, layers.last().insert(k, v));
    assert(s2.last() == layers.last().insert(k, v));
    assert(s2.last().contains_key(k) && s2.last()[k] == v);
    if k2 != k {
        assert(layers.last() == layers[layers.len() - 1]);
        lemma_update_other_key(layers, layers.len() - 1, k, v, k2);
    }
}

/// Law: pushing a fresh empty layer and then inserting `k -> v` into it
/// makes `v` the effective value of `k` (shadowing any binding below),
/// while the pre-push layers are unaffected: every other key keeps its
/// pre-push effective value, and popping the new layer restores the stack
/// exactly, so `k` reverts to its pre-push effective value.
pub proof fn lemma_push_insert_shadows<K, V>(layers: Seq<Map<K, V>>, k: K, v: V, k2: K)
    ensures
        ({
            let pushed = layers.push(Map::<K, V>::empty());
            let inserted = pushed.update(pushed.len() - 1, pushed.last().insert(k, v));
            &&& stack_lookup(inserted, k) == Some(v)
            &&& (k2 != k ==> stack_lookup(inserted, k2) == stack_lookup(layers, k2))
            &&& inserted.drop_last() == layers
        }),
{
    let pushed = layers.push(Map::<K, V>::empty());
    let inserted = pushed.update(pushed.len() - 1, pushed.last().insert(k, v));
    assert(inserted.last() == Map::<K, V>::empty().insert(k, v));
    assert(inserted.last().contains_key(k) && inserted.last()[k] == v);
    assert(inserted.drop_last() =~= layers);
    if k2 != k {
        assert(!inserted.last().contains_key(k2));
    }
}

} // verus!
