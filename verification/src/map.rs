//! The layered mapping container and its specification.
//!
//! A `ChainMap` owns an ordered stack of hash maps ("layers"), indexed from
//! the base layer (index 0) to the most recently pushed layer (last index).
//! Lookups search from the top layer down; inserts always target the top
//! layer. The stack is never empty: popping the last remaining layer clears
//! it instead of removing it.

use std::borrow::Borrow;
use std::collections::HashMap;
use std::hash::Hash;
use vstd::pervasive::unreached;
use vstd::prelude::*;
use vstd::std_specs::hash::borrowed_key_removed;
use vstd::std_specs::hash::contains_borrowed_key;
use vstd::std_specs::hash::maps_borrowed_key_to_value;
use vstd::std_specs::hash::obeys_key_model;

verus! {

/// The effective value of `k` in a stack of layers: the value found in the
/// highest-indexed layer that contains `k`, or `None` if no layer does.
pub open spec fn stack_lookup<K, V>(layers: Seq<Map<K, V>>, k: K) -> Option<V>
    decreases layers.len(),
{
    if layers.len() == 0 {
        None
    } else if layers.last().contains_key(k) {
        Some(layers.last()[k])
    } else {
        stack_lookup(layers.drop_last(), k)
    }
}

/// Whether some layer of the stack contains the borrowed key `k`.
///
/// `contains_borrowed_key` is vstd's opaque statement that a single map
/// contains a key given in a borrowed form `&Q`; when `Q == K` it agrees
/// with `Map::contains_key` by vstd's axioms.
pub open spec fn stack_contains_borrowed_key<K, V, Q: ?Sized>(
    layers: Seq<Map<K, V>>,
    k: &Q,
) -> bool {
    exists|i: int| 0 <= i < layers.len() && #[trigger] contains_borrowed_key(layers[i], k)
}

/// Whether `v` is the effective value of the borrowed key `k` in the stack:
/// some layer maps `k` to `v` and no higher layer contains `k`.
pub open spec fn stack_maps_borrowed_key_to_value<K, V, Q: ?Sized>(
    layers: Seq<Map<K, V>>,
    k: &Q,
    v: V,
) -> bool {
    exists|i: int|
        {
            &&& 0 <= i < layers.len()
            &&& #[trigger] maps_borrowed_key_to_value(layers[i], k, v)
            &&& forall|j: int| i < j < layers.len() ==> !contains_borrowed_key(#[trigger] layers[j], k)
        }
}

/// Whether `m2` is `m1` with the borrowed key `k` bound to `v`: the two maps
/// agree once `k` is removed from each, and `m2` maps `k` to `v`.
///
/// `borrowed_key_removed` is vstd's opaque statement that one map is another
/// with a borrowed key removed; when `Q == K` it agrees with `Map::remove`
/// by vstd's axioms.
pub open spec fn map_updated_at_borrowed_key<K, V, Q: ?Sized>(
    m1: Map<K, V>,
    m2: Map<K, V>,
    k: &Q,
    v: V,
) -> bool {
    &&& maps_borrowed_key_to_value(m2, k, v)
    &&& exists|w: Map<K, V>|
        #[trigger] borrowed_key_removed(m1, w, k) && borrowed_key_removed(m2, w, k)
}

/// Whether the stack `s2` is the stack `s1` with the borrowed key `k` bound
/// to `v` in its effective layer: exactly one layer changed, that layer is
/// the highest-indexed one of `s1` containing `k`, and it changed only at
/// `k`, which is now bound to `v`.
pub open spec fn stack_updated_at_borrowed_key<K, V, Q: ?Sized>(
    s1: Seq<Map<K, V>>,
    s2: Seq<Map<K, V>>,
    k: &Q,
    v: V,
) -> bool {
    exists|i: int|
        {
            &&& 0 <= i < s1.len()
            &&& s2 == s1.update(i, s2[i])
            &&& #[trigger] map_updated_at_borrowed_key(s1[i], s2[i], k, v)
            &&& forall|j: int| i < j < s1.len() ==> !contains_borrowed_key(#[trigger] s1[j], k)
        }
}

/// Relies on `std::collections::HashMap::get_mut`: it returns a mutable
/// reference to the value for the given key when the key is present and
/// `None` when it is not, and it modifies the map only through that
/// reference; if no reference is handed out, the map is unchanged.
#[verifier::external_body]
fn hash_map_get_mut<'a, K: Hash + Eq, V, Q: ?Sized>(
    m: &'a mut HashMap<K, V>,
    key: &Q,
) -> (r: Option<&'a mut V>)
    where
        K: Borrow<Q>,
        Q: Hash + Eq,
    ensures
        r is None ==> final(m)@ == old(m)@,
        obeys_key_model::<K>() ==> match r {
            Some(v) => {
                &&& maps_borrowed_key_to_value(old(m)@, key, *v)
                &&& map_updated_at_borrowed_key(old(m)@, final(m)@, key, *final(v))
            },
            None => !contains_borrowed_key(old(m)@, key),
        },
{
    m.get_mut(key)
}

/// A stack of independent key-value layers that behaves as one mapping:
/// lookups search from the most recently pushed layer down to the base
/// layer, while inserts always target the most recently pushed layer.
///
/// The stack is intended to hold at least one layer at all times; see
/// [`ChainMap::wf`].
pub struct ChainMap<K, V> {
    pub maps: Vec<HashMap<K, V>>,
}

impl<K, V> View for ChainMap<K, V> {
    type V = Seq<Map<K, V>>;

    open spec fn view(&self) -> Seq<Map<K, V>> {
        Seq::new(self.maps@.len(), |i: int| self.maps@[i]@)
    }
}

impl<K, V> ChainMap<K, V> {
    /// The never-empty invariant: there is always at least the base layer.
    pub open spec fn wf(&self) -> bool {
        self@.len() >= 1
    }
}

impl<K: Hash + Eq, V> ChainMap<K, V> {
    /// Creates a container whose single layer holds the entries of `map`.
    pub fn new(map: HashMap<K, V>) -> (r: Self)
        ensures
            r.wf(),
            r@ == seq![map@],
    {
        let ghost base: Map<K, V> = map@;
        let mut maps: Vec<HashMap<K, V>> = Vec::new();
        maps.push(map);
        let r = Self { maps };
        proof {
            assert(r@ =~= seq![base]);
        }
        r
    }

    /// Inserts a key-value pair into the topmost layer only, regardless of
    /// whether the key exists in any lower layer. Returns the previous value
    /// for `key` within that same topmost layer if one existed there, else
    /// `None`; a binding for `key` in a lower layer is shadowed, not touched.
    pub fn insert(&mut self, key: K, value: V) -> (r: Option<V>)
        requires
            old(self).wf(),
        ensures
            final(self).wf(),
            final(self)@.len() == old(self)@.len(),
            forall|i: int| 0 <= i < old(self)@.len() - 1 ==> final(self)@[i] == old(self)@[i],
            obeys_key_model::<K>() ==> final(self)@ == old(self)@.update(
                old(self)@.len() - 1,
                old(self)@.last().insert(key, value),
            ),
            obeys_key_model::<K>() ==> r == (if old(self)@.last().contains_key(key) {
                Some(old(self)@.last()[key])
            } else {
                None::<V>
            }),
    {
        let ghost gk: K = key;
        let ghost gv: V = value;
        let idx: usize = self.maps.len() - 1;
        let m = &mut self.maps[idx];
        let r = m.insert(key, value);
        proof {
            assert(self@ =~= old(self)@.update(idx as int, self.maps@[idx as int]@));
            if obeys_key_model::<K>() {
                assert(self@ =~= old(self)@.update(idx as int, old(self)@.last().insert(gk, gv)));
            }
        }
        r
    }

    /// Searches the layers from the topmost down to the base, returning a
    /// reference to the value in the first (highest-indexed) layer where the
    /// key is found, or `None` if the key is absent from every layer.
    ///
    /// The supplied key may be any borrowed form of the map's key type, but
    /// `Hash` and `Eq` on the borrowed form *must* match those for
    /// the key type.
    pub fn get<'a, Q: ?Sized>(&'a self, key: &Q) -> (r: Option<&'a V>)
        where
            K: Borrow<Q>,
            Q: Hash + Eq,
        ensures
            obeys_key_model::<K>() ==> match r {
                Some(v) => stack_maps_borrowed_key_to_value(self@, key, *v),
                None => !stack_contains_borrowed_key(self@, key),
            },
    {
        let mut i: usize = self.maps.len();
        while i > 0
            invariant
                i <= self.maps.len(),
                obeys_key_model::<K>() ==> forall|j: int|
                    i <= j < self@.len() ==> !contains_borrowed_key(#[trigger] self@[j], key),
            decreases i,
        {
            i -= 1;
            match self.maps[i].get(key) {
                Some(v) => {
                    proof {
                        if obeys_key_model::<K>() {
                            assert(maps_borrowed_key_to_value(self@[i as int], key, *v));
                            assert(stack_maps_borrowed_key_to_value(self@, key, *v));
                        }
                    }
                    return Some(v);
                },
                None => {},
            }
        }
        None
    }

    /// Searches the layers from the topmost down to the base, like `get`,
    /// but yields a mutable reference into whichever layer held the match —
    /// which may be any layer, not only the topmost. Mutating through the
    /// reference changes that binding in place; no new entry is created in
    /// the top layer.
    ///
    /// The supplied key may be any borrowed form of the map's key type, but
    /// `Hash` and `Eq` on the borrowed form *must* match those for
    /// the key type.
    pub fn get_mut<'a, Q: ?Sized>(&'a mut self, key: &Q) -> (r: Option<&'a mut V>)
        where
            K: Borrow<Q>,
            Q: Hash + Eq,
        ensures
            final(self)@.len() == old(self)@.len(),
            r is None ==> final(self)@ == old(self)@,
            obeys_key_model::<K>() ==> match r {
                Some(v) => {
                    &&& stack_maps_borrowed_key_to_value(old(self)@, key, *v)
                    &&& stack_updated_at_borrowed_key(old(self)@, final(self)@, key, *final(v))
                },
                None => !stack_contains_borrowed_key(old(self)@, key),
            },
    {
        let mut i: usize = self.maps.len();
        let mut hit: Option<usize> = None;
        while hit.is_none() && i > 0
            invariant
                i <= self@.len(),
                *self == *old(self),
                hit matches Some(t) ==> i <= t < self@.len(),
                obeys_key_model::<K>() ==> match hit {
                    Some(t) => {
                        &&& contains_borrowed_key(self@[t as int], key)
                        &&& forall|j: int|
                            t < j < self@.len() ==> !contains_borrowed_key(#[trigger] self@[j], key)
                    },
                    None => forall|j: int|
                        i <= j < self@.len() ==> !contains_borrowed_key(#[trigger] self@[j], key),
                },
            decreases i,
        {
            i -= 1;
            if self.maps[i].contains_key(key) {
                hit = Some(i);
            }
        }
        match hit {
            Some(t) => self.layer_get_mut(t, key),
            None => None,
        }
    }

    /// Hands out a mutable reference to the value for `key` in layer `t`,
    /// if that layer contains the key; no other layer is touched.
    fn layer_get_mut<'a, Q: ?Sized>(&'a mut self, t: usize, key: &Q) -> (r: Option<&'a mut V>)
        where
            K: Borrow<Q>,
            Q: Hash + Eq,
        requires
            t < old(self)@.len(),
        ensures
            final(self)@.len() == old(self)@.len(),
            final(self)@ =~= old(self)@.update(t as int, final(self)@[t as int]),
            r is None ==> final(self)@ =~= old(self)@,
            obeys_key_model::<K>() ==> match r {
                Some(v) => {
                    &&& maps_borrowed_key_to_value(old(self)@[t as int], key, *v)
                    &&& map_updated_at_borrowed_key(
                        old(self)@[t as int],
                        final(self)@[t as int],
                        key,
                        *final(v),
                    )
                },
                None => !contains_borrowed_key(old(self)@[t as int], key),
            },
    {
        let layer = &mut self.maps[t];
        hash_map_get_mut(layer, key)
    }

    /// Pushes a new, empty layer; subsequent inserts target it.
    pub fn new_child(&mut self)
        ensures
            final(self).wf(),
            final(self)@ == old(self)@.push(Map::<K, V>::empty()),
    {
        self.maps.push(HashMap::new());
        proof {
            assert(self@ =~= old(self)@.push(Map::<K, V>::empty()));
        }
    }

    /// Pushes a new layer pre-populated with the entries of `map`.
    pub fn new_child_with(&mut self, map: HashMap<K, V>)
        ensures
            final(self).wf(),
            final(self)@ == old(self)@.push(map@),
    {
        let ghost pushed: Map<K, V> = map@;
        self.maps.push(map);
        proof {
            assert(self@ =~= old(self)@.push(pushed));
        }
    }

    /// Returns a reference to the value for `key`, searching all layers from
    /// the topmost down, for indexing-style access. Lookup of an absent key
    /// is a hard failure rather than an empty result, so the key being
    /// present somewhere in the stack is a precondition here; an unverified
    /// caller that breaks it stops with a panic.
    pub fn index<'a, Q: ?Sized>(&'a self, key: &Q) -> (r: &'a V)
        where
            K: Borrow<Q>,
            Q: Hash + Eq,
        requires
            obeys_key_model::<K>(),
            stack_contains_borrowed_key(self@, key),
        ensures
            stack_maps_borrowed_key_to_value(self@, key, *r),
    {
        match self.get(key) {
            Some(v) => v,
            None => unreached(),
        }
    }

    /// Removes and returns the topmost layer — unless it is the only layer,
    /// in which case the layer stays in place, its contents are replaced by
    /// an empty mapping, and the original contents are returned. Either way
    /// the result is `Some` and at least one layer remains.
    pub fn remove_child(&mut self) -> (r: Option<HashMap<K, V>>)
        requires
            old(self).wf(),
        ensures
            final(self).wf(),
            r matches Some(m) && m@ == old(self)@.last(),
            old(self)@.len() > 1 ==> final(self)@ == old(self)@.drop_last(),
            old(self)@.len() == 1 ==> final(self)@ == seq![Map::<K, V>::empty()],
    {
        let r = self.maps.pop();
        if self.maps.len() == 0 {
            self.maps.push(HashMap::new());
            proof {
                assert(self@ =~= seq![Map::<K, V>::empty()]);
            }
        } else {
            proof {
                assert(self@ =~= old(self)@.drop_last());
            }
        }
        r
    }
}

impl<K: Hash + Eq, V> Default for ChainMap<K, V> {
    /// Creates a container whose single layer is empty.
    fn default() -> (r: Self)
        ensures
            r.wf(),
            r@ == seq![Map::<K, V>::empty()],
    {
        let mut maps: Vec<HashMap<K, V>> = Vec::new();
        maps.push(HashMap::new());
        let r = Self { maps };
        proof {
            assert(r@ =~= seq![Map::<K, V>::empty()]);
        }
        r
    }
}

} // verus!
