use vec_key_value_pair::map::VecMap;
use vstd::prelude::*;

verus! {

/// `vec_key_value_pair::map::VecMap`, a map kept as a vector of pairs.
#[verifier::external_type_specification]
#[verifier::external_body]
#[verifier::reject_recursive_types(K)]
#[verifier::reject_recursive_types(V)]
pub struct ExVecMap<K, V>(VecMap<K, V>);

/// The pairs of a cache map, in the order of the map's inner vector.
pub uninterp spec fn cache_pairs(m: VecMap<usize, Vec<usize>>) -> Seq<(usize, Seq<usize>)>;

/// Position of the first pair with key `k`.
pub open spec fn first_key<K, V>(s: Seq<(K, V)>, k: K) -> Option<int>
    decreases s.len(),
{
    if s.len() == 0 {
        None
    } else {
        match first_key(s.drop_last(), k) {
            Some(i) => Some(i),
            None => if s.last().0 == k { Some((s.len() - 1) as int) } else { None },
        }
    }
}

/// Position of the last pair with key `k`.
pub open spec fn last_key<K, V>(s: Seq<(K, V)>, k: K) -> Option<int>
    decreases s.len(),
{
    if s.len() == 0 {
        None
    } else if s.last().0 == k {
        Some((s.len() - 1) as int)
    } else {
        last_key(s.drop_last(), k)
    }
}

/// The pairs after `VecMap::remove(k)`: the last pair with key `k` is dropped.
pub open spec fn without_last_key<K, V>(s: Seq<(K, V)>, k: K) -> Seq<(K, V)> {
    match last_key(s, k) {
        Some(i) => s.remove(i),
        None => s,
    }
}

/// `VecMap::new`: a map without pairs.
#[verifier::external_body]
pub(crate) fn cache_new() -> (r: VecMap<usize, Vec<usize>>)
    ensures
        cache_pairs(r) == Seq::<(usize, Seq<usize>)>::empty(),
{
    VecMap::new()
}

/// `VecMap::get`: the value of the first pair whose key is `k`.
#[verifier::external_body]
pub(crate) fn cache_get(m: &VecMap<usize, Vec<usize>>, k: usize) -> (r: Option<&Vec<usize>>)
    ensures
        match first_key(cache_pairs(*m), k) {
            Some(i) => r matches Some(v) && v@ == cache_pairs(*m)[i].1,
            None => r is None,
        },
{
    m.get(&k)
}

/// `VecMap::insert`: drops the last pair with key `k`, then appends `(k, v)`.
#[verifier::external_body]
pub(crate) fn cache_insert(m: &mut VecMap<usize, Vec<usize>>, k: usize, v: Vec<usize>)
    ensures
        cache_pairs(*final(m)) == without_last_key(cache_pairs(*old(m)), k).push((k, v@)),
{
    m.insert(k, v);
}

/// `VecMap::remove`: drops the last pair with key `k`.
#[verifier::external_body]
pub(crate) fn cache_remove(m: &mut VecMap<usize, Vec<usize>>, k: usize)
    ensures
        cache_pairs(*final(m)) == without_last_key(cache_pairs(*old(m)), k),
{
    m.remove(&k);
}

/// `VecMap::clear`: drops every pair.
#[verifier::external_body]
pub(crate) fn cache_clear(m: &mut VecMap<usize, Vec<usize>>)
    ensures
        cache_pairs(*final(m)) == Seq::<(usize, Seq<usize>)>::empty(),
{
    m.clear();
}

/// No key occurs twice.
pub open spec fn unique_keys<K, V>(s: Seq<(K, V)>) -> bool {
    forall|i: int, j: int| 0 <= i < s.len() && 0 <= j < s.len() && i != j ==> s[i].0 != s[j].0
}

pub proof fn lemma_keys<K, V>(s: Seq<(K, V)>, k: K)
    ensures
        first_key(s, k) is None <==> (forall|i: int| 0 <= i < s.len() ==> s[i].0 != k),
        last_key(s, k) is None <==> (forall|i: int| 0 <= i < s.len() ==> s[i].0 != k),
        first_key(s, k) matches Some(i) ==> 0 <= i < s.len() && s[i].0 == k,
        last_key(s, k) matches Some(i) ==> 0 <= i < s.len() && s[i].0 == k,
        unique_keys(s) ==> first_key(s, k) == last_key(s, k),
    decreases s.len(),
{
    if s.len() > 0 {
        let p = s.drop_last();
        lemma_keys(p, k);
        assert forall|i: int| 0 <= i < p.len() implies p[i] == s[i] by {}
        if unique_keys(s) {
            assert(unique_keys(p));
            if s.last().0 == k {
                assert forall|i: int| 0 <= i < p.len() implies p[i].0 != k by {
                    assert(s[i].0 != s[s.len() - 1].0);
                }
            }
        }
        if first_key(p, k) is None && s.last().0 != k {
            assert forall|i: int| 0 <= i < s.len() implies s[i].0 != k by {
                if i < s.len() - 1 {
                    assert(p[i].0 != k);
                }
            }
        }
        if last_key(p, k) is None && s.last().0 != k {
            assert forall|i: int| 0 <= i < s.len() implies s[i].0 != k by {
                if i < s.len() - 1 {
                    assert(p[i].0 != k);
                }
            }
        }
    }
}

/// Two pair sequences with the same keys at the same positions find the same
/// positions for every key.
pub proof fn lemma_same_keys<K, V1, V2>(a: Seq<(K, V1)>, b: Seq<(K, V2)>, k: K)
    requires
        a.len() == b.len(),
        forall|i: int| 0 <= i < a.len() ==> a[i].0 == b[i].0,
    ensures
        first_key(a, k) == first_key(b, k),
        last_key(a, k) == last_key(b, k),
        unique_keys(a) == unique_keys(b),
    decreases a.len(),
{
    if a.len() > 0 {
        lemma_same_keys(a.drop_last(), b.drop_last(), k);
    }
    if unique_keys(a) {
        assert forall|i: int, j: int| 0 <= i < b.len() && 0 <= j < b.len() && i != j implies b[i].0 != b[j].0 by {
            assert(a[i].0 != a[j].0);
        }
    }
    if unique_keys(b) {
        assert forall|i: int, j: int| 0 <= i < a.len() && 0 <= j < a.len() && i != j implies a[i].0 != a[j].0 by {
            assert(b[i].0 != b[j].0);
        }
    }
}

/// The pairs of an asset index, in the order of the map's inner vector.
pub uninterp spec fn index_pairs(m: VecMap<u128, usize>) -> Seq<(u128, usize)>;

/// `VecMap::new`: a map without pairs.
#[verifier::external_body]
pub(crate) fn index_new() -> (r: VecMap<u128, usize>)
    ensures
        index_pairs(r) == Seq::<(u128, usize)>::empty(),
{
    VecMap::new()
}

/// `VecMap::get`: the value of the first pair whose key is `k`.
#[verifier::external_body]
pub(crate) fn index_get(m: &VecMap<u128, usize>, k: u128) -> (r: Option<usize>)
    ensures
        match first_key(index_pairs(*m), k) {
            Some(i) => r == Some(index_pairs(*m)[i].1),
            None => r is None,
        },
{
    m.get(&k).copied()
}

/// `VecMap::insert`: drops the last pair with key `k`, then appends `(k, v)`.
#[verifier::external_body]
pub(crate) fn index_insert(m: &mut VecMap<u128, usize>, k: u128, v: usize)
    ensures
        index_pairs(*final(m)) == without_last_key(index_pairs(*old(m)), k).push((k, v)),
{
    m.insert(k, v);
}

/// `VecMap::iter`: every pair, in the order of the map's inner vector.
#[verifier::external_body]
pub(crate) fn index_entries(m: &VecMap<u128, usize>) -> (r: Vec<(u128, usize)>)
    ensures
        r@ == index_pairs(*m),
{
    m.iter().map(|(k, v)| (*k, *v)).collect()
}

} // verus!
