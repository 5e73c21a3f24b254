//! Grouping of mesh components into instanced draw calls.
//!
//! Every visible mesh component contributes a `(mesh id, material id)` pair.
//! Components that share both ids are drawn with one instanced call; the calls
//! are ordered by mesh id, then by material id. An id of 0 means "not set":
//! components with such an id are not drawn.
use vstd::prelude::*;

verus! {

/// A `(mesh id, material id)` pair.
pub type MeshMaterialIds = (u128, u128);

/// The mesh and the material of one instanced draw call.
#[derive(Clone, Copy, Debug, PartialEq, Eq, Structural)]
pub struct MeshMaterial {
    pub mesh_id: u128,
    pub material_id: u128,
}

impl MeshMaterial {
    /// The ids as a pair.
    pub open spec fn ids(self) -> MeshMaterialIds {
        (self.mesh_id, self.material_id)
    }

    pub fn new(mesh_id: u128, material_id: u128) -> (r: Self)
        ensures
            r.mesh_id == mesh_id,
            r.material_id == material_id,
    {
        MeshMaterial { mesh_id, material_id }
    }
}

/// The ids of every draw call.
pub open spec fn ids_of(calls: Seq<MeshMaterial>) -> Seq<MeshMaterialIds> {
    calls.map_values(|m: MeshMaterial| m.ids())
}

/// Lexicographic order on pairs: by mesh id, then by material id.
pub open spec fn key_lt(a: MeshMaterialIds, b: MeshMaterialIds) -> bool {
    a.0 < b.0 || (a.0 == b.0 && a.1 < b.1)
}

/// Whether a component with these ids is drawn.
pub open spec fn drawable(p: MeshMaterialIds) -> bool {
    p.0 != 0 && p.1 != 0
}

/// Positions of the pairs equal to `k`, ascending.
pub open spec fn positions_of(s: Seq<MeshMaterialIds>, k: MeshMaterialIds) -> Seq<usize>
    decreases s.len(),
{
    if s.len() == 0 {
        Seq::empty()
    } else if s.last() == k {
        positions_of(s.drop_last(), k).push((s.len() - 1) as usize)
    } else {
        positions_of(s.drop_last(), k)
    }
}

/// The batches of a list of pairs: strictly ascending drawable keys, each
/// present among the pairs, every drawable pair covered, and the members of
/// each batch the positions of its pairs.
pub open spec fn is_batching(
    pairs: Seq<MeshMaterialIds>,
    keys: Seq<MeshMaterialIds>,
    members: Seq<Seq<usize>>,
) -> bool {
    &&& keys.len() == members.len()
    &&& forall|a: int, b: int| 0 <= a < b < keys.len() ==> key_lt(keys[a], keys[b])
    &&& forall|b: int| 0 <= b < keys.len() ==> drawable(#[trigger] keys[b])
    &&& forall|b: int| 0 <= b < keys.len() ==> #[trigger] members[b] == positions_of(pairs, keys[b])
    &&& forall|b: int| 0 <= b < keys.len() ==> (#[trigger] members[b]).len() > 0
    &&& forall|i: int| 0 <= i < pairs.len() && drawable(#[trigger] pairs[i]) ==> keys.contains(pairs[i])
}

/// The instanced draw calls of one frame.
pub struct InstanceBatches {
    /// The `(mesh id, material id)` of every draw call, in drawing order.
    pub mesh_materials: Vec<MeshMaterial>,
    /// The number of instances of every draw call.
    pub num_instances: Vec<usize>,
    /// The positions, in the input, of the components of every draw call.
    pub members: Vec<Vec<usize>>,
}

proof fn lemma_positions_step(s: Seq<MeshMaterialIds>, i: int, k: MeshMaterialIds)
    requires
        0 <= i < s.len(),
        s.len() <= usize::MAX,
    ensures
        positions_of(s.take(i + 1), k) == if s[i] == k {
            positions_of(s.take(i), k).push(i as usize)
        } else {
            positions_of(s.take(i), k)
        },
{
    assert(s.take(i + 1).drop_last() =~= s.take(i));
}

proof fn lemma_positions_bounds(s: Seq<MeshMaterialIds>, k: MeshMaterialIds)
    requires
        s.len() <= usize::MAX,
    ensures
        forall|j: int| 0 <= j < positions_of(s, k).len() ==> #[trigger] positions_of(s, k)[j] < s.len()
            && s[positions_of(s, k)[j] as int] == k,
        positions_of(s, k).len() > 0 <==> s.contains(k),
    decreases s.len(),
{
    if s.len() > 0 {
        let p = s.drop_last();
        lemma_positions_bounds(p, k);
        assert forall|j: int| 0 <= j < p.len() implies p[j] == s[j] by {}
        if positions_of(p, k).len() > 0 {
            let w = choose|w: int| 0 <= w < p.len() && p[w] == k;
            assert(s[w] == k);
        }
        if s.contains(k) && s.last() != k {
            let w = choose|w: int| 0 <= w < s.len() && s[w] == k;
            assert(p[w] == k);
        }
    }
}

/// Groups the pairs into instanced draw calls.
pub fn plan_batches(pairs: &Vec<MeshMaterialIds>) -> (r: InstanceBatches)
    ensures
        is_batching(pairs@, ids_of(r.mesh_materials@), r.members@.map_values(|m: Vec<usize>| m@)),
        r.num_instances@.len() == r.mesh_materials@.len(),
        forall|b: int| 0 <= b < r.num_instances@.len() ==> #[trigger] r.num_instances@[b] == r.members@[b]@.len(),
{
    let mut keys: Vec<MeshMaterialIds> = Vec::new();
    let mut members: Vec<Vec<usize>> = Vec::new();
    let n = pairs.len();
    let mut i: usize = 0;
    while i < n
        invariant
            0 <= i <= n,
            n == pairs@.len(),
            is_batching(pairs@.take(i as int), keys@, members@.map_values(|m: Vec<usize>| m@)),
        decreases n - i,
    {
        let ghost pre = pairs@.take(i as int);
        let ghost old_keys = keys@;
        let ghost old_members = members@.map_values(|m: Vec<usize>| m@);
        let p = pairs[i];
        proof {
            assert forall|kk: MeshMaterialIds| true implies positions_of(pairs@.take(i + 1), kk) == if pairs@[i as int] == kk {
                positions_of(pre, kk).push(i)
            } else {
                positions_of(pre, kk)
            } by {
                lemma_positions_step(pairs@, i as int, kk);
            }
            assert forall|j: int| 0 <= j < pre.len() implies pre[j] == pairs@[j] by {}
        }
        if p.0 != 0 && p.1 != 0 {
            let mut pos: usize = 0;
            let mut found = false;
            while pos < keys.len()
                invariant_except_break
                    !found,
                invariant
                    0 <= pos <= keys@.len(),
                    keys@ == old_keys,
                    forall|a: int, b: int| 0 <= a < b < keys@.len() ==> key_lt(keys@[a], keys@[b]),
                    forall|a: int| 0 <= a < pos ==> key_lt(#[trigger] keys@[a], p),
                ensures
                    0 <= pos <= keys@.len(),
                    keys@ == old_keys,
                    forall|a: int| 0 <= a < pos ==> key_lt(#[trigger] keys@[a], p),
                    found ==> pos < keys@.len() && keys@[pos as int] == p,
                    !found ==> pos == keys@.len() || key_lt(p, keys@[pos as int]),
                decreases keys@.len() - pos,
            {
                let k = keys[pos];
                if k.0 == p.0 && k.1 == p.1 {
                    found = true;
                    assert(keys@[pos as int] == p);
                    break;
                }
                if p.0 < k.0 || (p.0 == k.0 && p.1 < k.1) {
                    assert(key_lt(p, keys@[pos as int]));
                    break;
                }
                pos = pos + 1;
            }
            if found {
                let ghost before_members = members@;
                let mut m = members.remove(pos);
                let ghost m0 = m@;
                m.push(i);
                members.insert(pos, m);
                proof {
                    assert(m0 == old_members[pos as int]);
                    assert(members@[pos as int]@ == m0.push(i as usize));
                    let nm = members@.map_values(|m: Vec<usize>| m@);
                    let post = pairs@.take(i + 1);
                    assert forall|b: int| 0 <= b < keys@.len() implies #[trigger] nm[b] == positions_of(post, keys@[b]) by {
                        if b == pos {
                            assert(nm[b] == m0.push(i as usize));
                        }
                        if b != pos {
                            assert(nm[b] == old_members[b]);
                            assert(keys@[b] != p) by {
                                if b < pos {
                                } else {
                                    assert(key_lt(keys@[pos as int], keys@[b]));
                                }
                            }
                        }
                    }
                    assert forall|b: int| 0 <= b < keys@.len() implies (#[trigger] nm[b]).len() > 0 by {
                        if b != pos {
                            assert(nm[b] == old_members[b]);
                        }
                    }
                    assert forall|j: int| 0 <= j < post.len() && drawable(#[trigger] post[j]) implies keys@.contains(post[j]) by {
                        if j < i {
                            assert(post[j] == pre[j]);
                        } else {
                            assert(keys@[pos as int] == p);
                        }
                    }
                }
            } else {
                let mut m: Vec<usize> = Vec::new();
                m.push(i);
                keys.insert(pos, p);
                members.insert(pos, m);
                proof {
                    let nm = members@.map_values(|m: Vec<usize>| m@);
                    let nk = keys@;
                    let post = pairs@.take(i + 1);
                    assert(!old_keys.contains(p)) by {
                        if old_keys.contains(p) {
                            let w = choose|w: int| 0 <= w < old_keys.len() && old_keys[w] == p;
                            if w < pos {
                                assert(key_lt(old_keys[w], p));
                            } else if pos < old_keys.len() {
                                if w > pos {
                                    assert(key_lt(old_keys[pos as int], old_keys[w]));
                                }
                            }
                        }
                    }
                    assert forall|b: int| 0 <= b < nk.len() implies #[trigger] nm[b] == positions_of(post, nk[b]) && nm[b].len() > 0 && drawable(nk[b]) by {
                        if b < pos {
                            assert(nm[b] == old_members[b]);
                            assert(nk[b] == old_keys[b]);
                            assert(old_keys[b] != p);
                        } else if b > pos {
                            assert(nm[b] == old_members[b - 1]);
                            assert(nk[b] == old_keys[b - 1]);
                            assert(old_keys[b - 1] != p);
                        } else {
                            assert(positions_of(pre, p).len() == 0) by {
                                lemma_positions_bounds(pre, p);
                                if pre.contains(p) {
                                    let w = choose|w: int| 0 <= w < pre.len() && pre[w] == p;
                                    assert(old_keys.contains(pre[w]));
                                }
                            }
                            assert(nm[b] =~= seq![i as usize]);
                        }
                    }
                    assert forall|a: int, b: int| 0 <= a < b < nk.len() implies key_lt(nk[a], nk[b]) by {
                        if a < pos && b < pos {
                            assert(nk[a] == old_keys[a] && nk[b] == old_keys[b]);
                        } else if a < pos && b == pos {
                            assert(nk[a] == old_keys[a]);
                        } else if a < pos && b > pos {
                            assert(nk[a] == old_keys[a] && nk[b] == old_keys[b - 1]);
                            assert(key_lt(old_keys[a], p));
                            if pos < old_keys.len() {
                                assert(key_lt(p, old_keys[pos as int]));
                                if b - 1 > pos {
                                    assert(key_lt(old_keys[pos as int], old_keys[b - 1]));
                                }
                            }
                        } else if a == pos {
                            assert(nk[b] == old_keys[b - 1]);
                            assert(key_lt(p, old_keys[pos as int]));
                            if b - 1 > pos {
                                assert(key_lt(old_keys[pos as int], old_keys[b - 1]));
                            }
                        } else {
                            assert(nk[a] == old_keys[a - 1] && nk[b] == old_keys[b - 1]);
                        }
                    }
                    assert forall|j: int| 0 <= j < post.len() && drawable(#[trigger] post[j]) implies nk.contains(post[j]) by {
                        if j < i {
                            assert(post[j] == pre[j]);
                            let w = choose|w: int| 0 <= w < old_keys.len() && old_keys[w] == pre[j];
                            if w < pos {
                                assert(nk[w] == old_keys[w]);
                            } else {
                                assert(nk[w + 1] == old_keys[w]);
                            }
                        } else {
                            assert(nk[pos as int] == p);
                        }
                    }
                }
            }
        } else {
            proof {
                let nm = members@.map_values(|m: Vec<usize>| m@);
                let post = pairs@.take(i + 1);
                assert forall|b: int| 0 <= b < keys@.len() implies #[trigger] nm[b] == positions_of(post, keys@[b]) by {
                    assert(drawable(keys@[b]));
                }
                assert forall|j: int| 0 <= j < post.len() && drawable(#[trigger] post[j]) implies keys@.contains(post[j]) by {
                    if j < i {
                        assert(post[j] == pre[j]);
                    }
                }
            }
        }
        i = i + 1;
    }
    assert(pairs@.take(n as int) =~= pairs@);
    let mut counts: Vec<usize> = Vec::new();
    let mut b: usize = 0;
    while b < members.len()
        invariant
            0 <= b <= members@.len(),
            counts@.len() == b,
            forall|c: int| 0 <= c < b ==> #[trigger] counts@[c] == members@[c]@.len(),
        decreases members@.len() - b,
    {
        counts.push(members[b].len());
        b = b + 1;
    }
    let mut calls: Vec<MeshMaterial> = Vec::new();
    let mut c: usize = 0;
    while c < keys.len()
        invariant
            0 <= c <= keys@.len(),
            ids_of(calls@) =~= keys@.take(c as int),
        decreases keys@.len() - c,
    {
        let k = keys[c];
        let ghost before = calls@;
        calls.push(MeshMaterial::new(k.0, k.1));
        proof {
            assert(calls@ == before.push(MeshMaterial { mesh_id: k.0, material_id: k.1 }));
            assert(ids_of(calls@) =~= ids_of(before).push(k));
            assert(keys@.take(c + 1) =~= keys@.take(c as int).push(k));
        }
        c = c + 1;
    }
    assert(keys@.take(keys@.len() as int) =~= keys@);
    InstanceBatches { mesh_materials: calls, num_instances: counts, members }
}

/// Whether the cached batching was computed from exactly these pairs.
pub fn same_pairs(cached: &Vec<MeshMaterialIds>, pairs: &Vec<MeshMaterialIds>) -> (r: bool)
    ensures
        r == (cached@ == pairs@),
{
    if cached.len() != pairs.len() {
        return false;
    }
    let mut i: usize = 0;
    while i < cached.len()
        invariant
            0 <= i <= cached@.len(),
            cached@.len() == pairs@.len(),
            forall|j: int| 0 <= j < i ==> cached@[j] == pairs@[j],
        decreases cached@.len() - i,
    {
        let a = cached[i];
        let b = pairs[i];
        if a.0 != b.0 || a.1 != b.1 {
            return false;
        }
        i = i + 1;
    }
    assert(cached@ =~= pairs@);
    true
}

/// For every draw call, whether its material differs from the previous call's
/// (the first call compares against material id 0).
pub fn material_switches(batches: &Vec<MeshMaterial>) -> (r: Vec<bool>)
    ensures
        r@.len() == batches@.len(),
        forall|b: int|
            0 <= b < r@.len() ==> #[trigger] r@[b] == (batches@[b].material_id != if b == 0 {
                0u128
            } else {
                batches@[b - 1].material_id
            }),
{
    let mut out: Vec<bool> = Vec::new();
    let mut previous: u128 = 0;
    let mut b: usize = 0;
    while b < batches.len()
        invariant
            0 <= b <= batches@.len(),
            out@.len() == b,
            previous == if b == 0 { 0u128 } else { batches@[b - 1].material_id },
            forall|c: int|
                0 <= c < b ==> #[trigger] out@[c] == (batches@[c].material_id != if c == 0 {
                    0u128
                } else {
                    batches@[c - 1].material_id
                }),
        decreases batches@.len() - b,
    {
        let material = batches[b].material_id;
        out.push(material != previous);
        previous = material;
        b = b + 1;
    }
    out
}

/// Strictly ascending sequence.
pub open spec fn ascending(s: Seq<MeshMaterialIds>) -> bool {
    forall|a: int, b: int| 0 <= a < b < s.len() ==> key_lt(s[a], s[b])
}

proof fn lemma_ascending_same_elements(a: Seq<MeshMaterialIds>, b: Seq<MeshMaterialIds>)
    requires
        ascending(a),
        ascending(b),
        forall|x: MeshMaterialIds| a.contains(x) <==> b.contains(x),
    ensures
        a == b,
    decreases a.len() + b.len(),
{
    if a.len() == 0 {
        if b.len() > 0 {
            assert(b.contains(b[0]));
        }
        assert(a =~= b);
    } else if b.len() == 0 {
        assert(a.contains(a[0]));
    } else {
        let la = a.last();
        let lb = b.last();
        assert(a.contains(la));
        assert(b.contains(lb));
        let wa = choose|w: int| 0 <= w < b.len() && b[w] == la;
        let wb = choose|w: int| 0 <= w < a.len() && a[w] == lb;
        if wa < b.len() - 1 {
            assert(key_lt(la, lb));
            if wb < a.len() - 1 {
                assert(key_lt(lb, la));
            }
        }
        assert(la == lb) by {
            if la != lb {
                assert(wa != b.len() - 1);
                assert(key_lt(la, lb));
                assert(wb != a.len() - 1);
                assert(key_lt(lb, la));
            }
        }
        let pa = a.drop_last();
        let pb = b.drop_last();
        assert forall|x: MeshMaterialIds| pa.contains(x) <==> pb.contains(x) by {
            if pa.contains(x) {
                let w = choose|w: int| 0 <= w < pa.len() && pa[w] == x;
                assert(a[w] == x);
                assert(key_lt(x, la));
                assert(b.contains(x));
                let v = choose|v: int| 0 <= v < b.len() && b[v] == x;
                assert(v != b.len() - 1);
                assert(pb[v] == x);
            }
            if pb.contains(x) {
                let w = choose|w: int| 0 <= w < pb.len() && pb[w] == x;
                assert(b[w] == x);
                assert(key_lt(x, lb));
                assert(a.contains(x));
                let v = choose|v: int| 0 <= v < a.len() && a[v] == x;
                assert(v != a.len() - 1);
                assert(pa[v] == x);
            }
        }
        lemma_ascending_same_elements(pa, pb);
        assert(a =~= pa.push(la));
        assert(b =~= pb.push(lb));
    }
}

/// The batching of a list of pairs is unique: two batchings of the same pairs
/// agree, so a cached batching can be reused whenever the pairs repeat.
pub proof fn law_batching_unique(
    pairs: Seq<MeshMaterialIds>,
    keys1: Seq<MeshMaterialIds>,
    members1: Seq<Seq<usize>>,
    keys2: Seq<MeshMaterialIds>,
    members2: Seq<Seq<usize>>,
)
    requires
        pairs.len() <= usize::MAX,
        is_batching(pairs, keys1, members1),
        is_batching(pairs, keys2, members2),
    ensures
        keys1 == keys2,
        members1 == members2,
{
    assert forall|x: MeshMaterialIds| keys1.contains(x) <==> keys2.contains(x) by {
        if keys1.contains(x) {
            let w = choose|w: int| 0 <= w < keys1.len() && keys1[w] == x;
            assert(members1[w].len() > 0);
            lemma_positions_bounds(pairs, x);
            let i = positions_of(pairs, x)[0];
            assert(pairs[i as int] == x);
            assert(drawable(keys1[w]));
        }
        if keys2.contains(x) {
            let w = choose|w: int| 0 <= w < keys2.len() && keys2[w] == x;
            assert(members2[w].len() > 0);
            lemma_positions_bounds(pairs, x);
            let i = positions_of(pairs, x)[0];
            assert(pairs[i as int] == x);
            assert(drawable(keys2[w]));
        }
    }
    lemma_ascending_same_elements(keys1, keys2);
    assert forall|b: int| 0 <= b < members1.len() implies members1[b] == members2[b] by {
        assert(members1[b] == positions_of(pairs, keys1[b]));
        assert(members2[b] == positions_of(pairs, keys2[b]));
    }
    assert(members1 =~= members2);
}

/// A component belongs to a draw call exactly when its ids are the call's ids.
pub proof fn law_batch_membership(
    pairs: Seq<MeshMaterialIds>,
    keys: Seq<MeshMaterialIds>,
    members: Seq<Seq<usize>>,
    b: int,
    i: int,
)
    requires
        pairs.len() <= usize::MAX,
        is_batching(pairs, keys, members),
        0 <= b < keys.len(),
        0 <= i < pairs.len(),
    ensures
        members[b].contains(i as usize) <==> pairs[i] == keys[b],
{
    lemma_positions_contains(pairs, keys[b], i);
}

proof fn lemma_positions_contains(s: Seq<MeshMaterialIds>, k: MeshMaterialIds, i: int)
    requires
        0 <= i < s.len(),
        s.len() <= usize::MAX,
    ensures
        positions_of(s, k).contains(i as usize) <==> s[i] == k,
    decreases s.len(),
{
    let p = s.drop_last();
    lemma_positions_bounds(p, k);
    if i < s.len() - 1 {
        lemma_positions_contains(p, k, i);
        assert(p[i] == s[i]);
        if s.last() == k {
            let ps = positions_of(p, k);
            let full = positions_of(s, k);
            assert(full == ps.push((s.len() - 1) as usize));
            if full.contains(i as usize) {
                let w = choose|w: int| 0 <= w < full.len() && full[w] == i as usize;
                if w < ps.len() {
                    assert(ps[w] == i as usize);
                }
            }
            if ps.contains(i as usize) {
                let w = choose|w: int| 0 <= w < ps.len() && ps[w] == i as usize;
                assert(ps.push((s.len() - 1) as usize)[w] == i as usize);
            }
        }
    } else {
        let ps = positions_of(p, k);
        if s.last() == k {
            assert(positions_of(s, k)[ps.len() as int] == i as usize);
        } else {
            if ps.contains(i as usize) {
                let w = choose|w: int| 0 <= w < ps.len() && ps[w] == i as usize;
                assert(ps[w] < p.len());
            }
        }
    }
}

} // verus!
