use std::any::TypeId;

use vec_key_value_pair::map::VecMap;

use crate::vecmap::{
    cache_clear, cache_get, cache_insert, cache_new, cache_pairs, cache_remove, first_key, last_key,
    lemma_keys, unique_keys, without_last_key,
};
use vstd::prelude::*;

use crate::ecs::component::{all_for, same_kind, targets, type_key, Called, Component, Hook};
use crate::ecs::entity::{
    add_outcome, first_index, remove_outcome, unique_kinds, ComponentError, ComponentReference, Entity, UUID,
};

verus! {

/// Positions of the entities that hold a component of kind `k`, in order.
pub open spec fn scan(es: Seq<Entity>, k: TypeId) -> Seq<usize>
    decreases es.len(),
{
    if es.len() == 0 {
        Seq::empty()
    } else if es.last().kinds().contains(k) {
        scan(es.drop_last(), k).push((es.len() - 1) as usize)
    } else {
        scan(es.drop_last(), k)
    }
}

pub proof fn lemma_scan(es: Seq<Entity>, k: TypeId)
    requires
        es.len() <= usize::MAX,
    ensures
        forall|j: int|
            0 <= j < scan(es, k).len() ==> 0 <= #[trigger] scan(es, k)[j] < es.len()
                && es[scan(es, k)[j] as int].kinds().contains(k),
        forall|a: int, b: int| 0 <= a < b < scan(es, k).len() ==> scan(es, k)[a] < scan(es, k)[b],
        forall|i: int|
            0 <= i < es.len() && #[trigger] es[i].kinds().contains(k) ==> scan(es, k).contains(
                i as usize,
            ),
    decreases es.len(),
{
    if es.len() > 0 {
        let p = es.drop_last();
        lemma_scan(p, k);
        assert forall|i: int| 0 <= i < p.len() implies p[i] == es[i] by {}
        let sp = scan(p, k);
        let s = scan(es, k);
        if es.last().kinds().contains(k) {
            assert forall|i: int| 0 <= i < es.len() && #[trigger] es[i].kinds().contains(k)
                implies s.contains(i as usize) by {
                if i == es.len() - 1 {
                    assert(s[s.len() - 1] == i as usize);
                } else {
                    assert(p[i].kinds().contains(k));
                    let w = choose|w: int| 0 <= w < sp.len() && sp[w] == i as usize;
                    assert(s[w] == i as usize);
                }
            }
        } else {
            assert forall|i: int| 0 <= i < es.len() && #[trigger] es[i].kinds().contains(k)
                implies s.contains(i as usize) by {
                assert(i != es.len() - 1);
                assert(p[i].kinds().contains(k));
            }
        }
    }
}

/// Records what changed since the caches were last brought up to date.
pub struct ComponentsModified {
    modified_components: Vec<TypeId>,
    entity_modified: bool,
}

impl ComponentsModified {
    /// Kinds whose components were added or removed.
    pub closed spec fn kinds(&self) -> Seq<TypeId> {
        self.modified_components@
    }

    /// Whether an entity was added, removed or handed out for mutation.
    pub closed spec fn entity_flag(&self) -> bool {
        self.entity_modified
    }

    /// Nothing recorded.
    pub fn new() -> (r: ComponentsModified)
        ensures
            r.kinds() == Seq::<TypeId>::empty(),
            !r.entity_flag(),
    {
        ComponentsModified { modified_components: Vec::new(), entity_modified: false }
    }

    /// Sets all caches modified to false.
    pub fn reset(&mut self)
        ensures
            final(self).kinds() == Seq::<TypeId>::empty(),
            !final(self).entity_flag(),
    {
        self.modified_components.clear();
        self.entity_modified = false;
    }

    /// Records that components of the given kind were added or removed.
    pub fn kind_changed(&mut self, kind: TypeId)
        ensures
            final(self).kinds() == old(self).kinds().push(kind),
            final(self).entity_flag() == old(self).entity_flag(),
    {
        self.modified_components.push(kind);
    }

    /// Must be called upon component addition or removal.
    pub fn component_changed<T: Component + 'static>(&mut self)
        ensures
            exists|k: TypeId| final(self).kinds() == #[trigger] old(self).kinds().push(k),
            final(self).entity_flag() == old(self).entity_flag(),
    {
        let key = type_key::<T>();
        self.kind_changed(key);
    }

    /// Must be called upon new entity creation or entity deletion.
    pub fn entity_changed(&mut self)
        ensures
            final(self).kinds() == old(self).kinds(),
            final(self).entity_flag(),
    {
        self.entity_modified = true;
    }
}

/// Why a world operation was refused.
#[derive(Debug, PartialEq, Eq, Structural)]
pub enum Error {
    /// No entity with the requested id is in the world.
    EntityDoesNotExist,
}

/// Changing one entity without changing whether it holds kind `k` leaves the
/// scan for `k` as it was.
pub proof fn lemma_scan_update(es: Seq<Entity>, i: int, e: Entity, k: TypeId)
    requires
        0 <= i < es.len(),
        e.kinds().contains(k) == es[i].kinds().contains(k),
    ensures
        scan(es.update(i, e), k) == scan(es, k),
    decreases es.len(),
{
    let n = es.update(i, e);
    if i == es.len() - 1 {
        assert(n.drop_last() =~= es.drop_last());
    } else {
        lemma_scan_update(es.drop_last(), i, e, k);
        assert(n.drop_last() =~= es.drop_last().update(i, e));
        assert(n.last() == es.last());
    }
}

/// Positions of the first entity with the given id.
pub open spec fn first_with_id(es: Seq<Entity>, id: UUID) -> Option<int>
    decreases es.len(),
{
    if es.len() == 0 {
        None
    } else {
        match first_with_id(es.drop_last(), id) {
            Some(i) => Some(i),
            None => if es.last().id() == id { Some((es.len() - 1) as int) } else { None },
        }
    }
}

pub proof fn lemma_first_with_id(es: Seq<Entity>, id: UUID)
    ensures
        match first_with_id(es, id) {
            Some(i) => 0 <= i < es.len() && es[i].id() == id && forall|j: int|
                0 <= j < i ==> es[j].id() != id,
            None => forall|j: int| 0 <= j < es.len() ==> es[j].id() != id,
        },
    decreases es.len(),
{
    if es.len() > 0 {
        let p = es.drop_last();
        lemma_first_with_id(p, id);
        assert forall|j: int| 0 <= j < p.len() implies p[j] == es[j] by {}
    }
}

/// Manages all the entities.
pub struct World {
    entities: Vec<Entity>,
    modified: ComponentsModified,
    registry: Vec<TypeId>,
    cache: VecMap<usize, Vec<usize>>,
}

/// The answer of a query for the components of kind `k`.
pub open spec fn components_answer<T>(
    es: Seq<Entity>,
    k: TypeId,
    r: Option<Vec<ComponentReference<T>>>,
) -> bool {
    let s = scan(es, k);
    &&& r is Some <==> s.len() > 0
    &&& r matches Some(v) ==> {
        &&& v@.len() == s.len()
        &&& forall|j: int|
            0 <= j < s.len() ==> {
                &&& (#[trigger] v@[j]).kind() == k
                &&& v@[j].cell() == es[s[j] as int].cells()[first_index(
                    es[s[j] as int].kinds(),
                    k,
                )->0]
            }
    }
}

/// The answer of a query for the entities that hold a component of kind `k`.
pub open spec fn entities_answer(es: Seq<Entity>, k: TypeId, r: Option<Vec<&Entity>>) -> bool {
    let s = scan(es, k);
    &&& r is Some <==> s.len() > 0
    &&& r matches Some(v) ==> {
        &&& v@.len() == s.len()
        &&& forall|j: int| 0 <= j < s.len() ==> *(#[trigger] v@[j]) == es[s[j] as int]
    }
}

impl World {
    /// The entities, in the order they were added.
    pub closed spec fn entities(&self) -> Seq<Entity> {
        self.entities@
    }

    /// The recorded modifications.
    pub closed spec fn modified(&self) -> ComponentsModified {
        self.modified
    }

    /// Every cache entry that no recorded modification covers lists exactly
    /// the entities that hold its kind.
    pub closed spec fn wf(&self) -> bool {
        let pairs = cache_pairs(self.cache);
        &&& unique_kinds_of(self.registry@)
        &&& forall|i: int| 0 <= i < self.entities@.len() ==> unique_kinds(#[trigger] self.entities@[i].kinds())
        &&& unique_keys(pairs)
        &&& self.entities@.len() <= usize::MAX
        &&& forall|i: int| 0 <= i < pairs.len() ==> (#[trigger] pairs[i]).0 < self.registry@.len()
        &&& forall|i: int|
            0 <= i < pairs.len() ==> {
                ||| self.modified.entity_modified
                ||| self.modified.modified_components@.contains(self.registry@[(#[trigger] pairs[i]).0 as int])
                ||| pairs[i].1 == scan(self.entities@, self.registry@[pairs[i].0 as int])
            }
    }

    /// Every entity of a well-formed world has at most one component of each kind.
    pub proof fn lemma_unique_kinds(&self)
        requires
            self.wf(),
        ensures
            forall|i: int| 0 <= i < self.entities().len() ==> unique_kinds(#[trigger] self.entities()[i].kinds()),
    {
    }

    /// Creates a new World.
    pub fn new() -> (r: World)
        ensures
            r.wf(),
            r.entities() == Seq::<Entity>::empty(),
    {
        let w = World {
            entities: Vec::new(),
            modified: ComponentsModified::new(),
            registry: Vec::new(),
            cache: cache_new(),
        };
        assert(w.entities() =~= Seq::<Entity>::empty());
        w
    }

    /// Position of the first entity with the given id.
    fn position_of(&self, entity_id: UUID) -> (r: Option<usize>)
        ensures
            r matches Some(i) ==> first_with_id(self.entities@, entity_id) == Some(i as int)
                && i < self.entities@.len(),
            r is None <==> first_with_id(self.entities@, entity_id) is None,
    {
        proof {
            lemma_first_with_id(self.entities@, entity_id);
        }
        let mut i: usize = 0;
        while i < self.entities.len()
            invariant
                0 <= i <= self.entities@.len(),
                forall|j: int| 0 <= j < i ==> self.entities@[j].id() != entity_id,
            decreases self.entities@.len() - i,
        {
            if self.entities[i].get_id() == entity_id {
                proof {
                    lemma_first_with_id(self.entities@, entity_id);
                    match first_with_id(self.entities@, entity_id) {
                        Some(f) => {
                            if f < i {
                            } else if f > i {
                                assert(self.entities@[i as int].id() == entity_id);
                            }
                        },
                        None => {
                            assert(self.entities@[i as int].id() == entity_id);
                        },
                    }
                }
                return Some(i);
            }
            i = i + 1;
        }
        None
    }

    /// Adds entity to the world, consuming it in the process.
    pub fn add_entity(&mut self, entity: Entity)
        requires
            old(self).wf(),
        ensures
            final(self).wf(),
            final(self).entities() == old(self).entities().push(entity),
    {
        proof {
            use_type_invariant(&entity);
        }
        let ghost old_es = self.entities@;
        self.modified.entity_changed();
        self.entities.push(entity);
        assert(self.entities.len() == self.entities@.len());
        assert forall|i: int| 0 <= i < self.entities@.len() implies unique_kinds(
            #[trigger] self.entities@[i].kinds(),
        ) by {
            if i < old_es.len() {
                assert(self.entities@[i] == old_es[i]);
            }
        }
    }

    /// Positions of the entities holding a component of the given kind, by a fresh scan.
    fn compute_scan(&self, kind: &TypeId) -> (r: Vec<usize>)
        requires
            self.entities@.len() <= usize::MAX,
        ensures
            r@ == scan(self.entities@, *kind),
    {
        let mut out: Vec<usize> = Vec::new();
        let mut i: usize = 0;
        while i < self.entities.len()
            invariant
                0 <= i <= self.entities@.len(),
                out@ == scan(self.entities@.take(i as int), *kind),
            decreases self.entities@.len() - i,
        {
            let ghost es = self.entities@;
            assert(es.take(i + 1).drop_last() =~= es.take(i as int));
            assert(es.take(i + 1).last() == es[i as int]);
            if self.entities[i].has_kind(kind) {
                out.push(i);
            }
            i = i + 1;
        }
        assert(self.entities@.take(self.entities@.len() as int) =~= self.entities@);
        out
    }

    /// Position of the kind in the registry.
    fn registry_index(&self, kind: &TypeId) -> (r: Option<usize>)
        ensures
            r matches Some(i) ==> i < self.registry@.len() && self.registry@[i as int] == *kind,
            r is None ==> !self.registry@.contains(*kind),
    {
        let mut i: usize = 0;
        while i < self.registry.len()
            invariant
                0 <= i <= self.registry@.len(),
                forall|j: int| 0 <= j < i ==> self.registry@[j] != *kind,
            decreases self.registry@.len() - i,
        {
            if same_kind(&self.registry[i], kind) {
                return Some(i);
            }
            i = i + 1;
        }
        None
    }

    /// Position of the kind in the registry, registering it when it is new.
    fn register(&mut self, kind: &TypeId) -> (r: usize)
        requires
            old(self).wf(),
        ensures
            final(self).wf(),
            final(self).entities@ == old(self).entities@,
            final(self).modified == old(self).modified,
            r < final(self).registry@.len(),
            final(self).registry@[r as int] == *kind,
            cache_pairs(final(self).cache) == cache_pairs(old(self).cache),
    {
        match self.registry_index(kind) {
            Some(i) => i,
            None => {
                let ghost old_reg = self.registry@;
                self.registry.push(*kind);
                proof {
                    let reg = self.registry@;
                    assert forall|i: int, j: int| 0 <= i < reg.len() && 0 <= j < reg.len() && i != j
                        implies reg[i] != reg[j] by {
                        if i == reg.len() - 1 {
                            assert(old_reg[j] == reg[j]);
                        } else if j == reg.len() - 1 {
                            assert(old_reg[i] == reg[i]);
                        }
                    }
                    let pairs = cache_pairs(self.cache);
                    assert forall|i: int| 0 <= i < pairs.len() implies {
                        ||| self.modified.entity_modified
                        ||| self.modified.modified_components@.contains(self.registry@[(#[trigger] pairs[i]).0 as int])
                        ||| pairs[i].1 == scan(self.entities@, self.registry@[pairs[i].0 as int])
                    } by {
                        assert(old_reg[pairs[i].0 as int] == reg[pairs[i].0 as int]);
                    }
                }
                self.registry.len() - 1
            },
        }
    }

    /// Checks the modified data and deletes all modified caches.
    fn upate_caches(&mut self)
        requires
            old(self).wf(),
        ensures
            final(self).wf(),
            final(self).entities@ == old(self).entities@,
            final(self).registry@ == old(self).registry@,
            !final(self).modified.entity_modified,
            final(self).modified.modified_components@ == Seq::<TypeId>::empty(),
    {
        if self.modified.entity_modified {
            self.modified.reset();
            cache_clear(&mut self.cache);
            return;
        }
        let mut j: usize = 0;
        assert(self.modified.modified_components@.subrange(0, self.modified.modified_components@.len() as int)
            =~= self.modified.modified_components@);
        while j < self.modified.modified_components.len()
            invariant
                0 <= j <= self.modified.modified_components@.len(),
                self.entities@ == old(self).entities@,
                self.registry@ == old(self).registry@,
                !self.modified.entity_modified,
                unique_kinds_of(self.registry@),
                unique_keys(cache_pairs(self.cache)),
                self.entities@.len() <= usize::MAX,
                forall|i: int|
                    0 <= i < cache_pairs(self.cache).len() ==> (#[trigger] cache_pairs(self.cache)[i]).0
                        < self.registry@.len(),
                forall|i: int|
                    0 <= i < cache_pairs(self.cache).len() ==> {
                        ||| self.modified.modified_components@.subrange(j as int, self.modified.modified_components@.len() as int).contains(
                            self.registry@[(#[trigger] cache_pairs(self.cache)[i]).0 as int],
                        )
                        ||| cache_pairs(self.cache)[i].1 == scan(
                            self.entities@,
                            self.registry@[cache_pairs(self.cache)[i].0 as int],
                        )
                    },
            decreases self.modified.modified_components@.len() - j,
        {
            let ghost mods = self.modified.modified_components@;
            let ghost before = cache_pairs(self.cache);
            let ghost reg = self.registry@;
            let kind = self.modified.modified_components[j];
            match self.registry_index(&kind) {
                Some(ri) => {
                    cache_remove(&mut self.cache, ri);
                    proof {
                        lemma_keys(before, ri);
                        let after = cache_pairs(self.cache);
                        match last_key(before, ri) {
                            Some(x) => {
                                assert(after == before.remove(x));
                                assert forall|i: int| 0 <= i < after.len() implies {
                                    &&& (#[trigger] after[i]).0 < reg.len()
                                    &&& after[i].0 != ri
                                    &&& (mods.subrange(j + 1, mods.len() as int).contains(reg[after[i].0 as int])
                                        || after[i].1 == scan(self.entities@, reg[after[i].0 as int]))
                                } by {
                                    let i2 = if i < x { i } else { i + 1 };
                                    assert(after[i] == before[i2]);
                                    assert(i2 != x);
                                    if mods.subrange(j as int, mods.len() as int).contains(reg[before[i2].0 as int]) {
                                        let w = choose|w: int| 0 <= w < mods.len() - j && mods.subrange(j as int, mods.len() as int)[w] == reg[before[i2].0 as int];
                                        if w > 0 {
                                            assert(mods.subrange(j + 1, mods.len() as int)[w - 1] == reg[before[i2].0 as int]);
                                        }
                                    }
                                }
                                assert forall|a: int, b: int| 0 <= a < after.len() && 0 <= b < after.len() && a != b
                                    implies after[a].0 != after[b].0 by {
                                    let a2 = if a < x { a } else { a + 1 };
                                    let b2 = if b < x { b } else { b + 1 };
                                    assert(after[a] == before[a2]);
                                    assert(after[b] == before[b2]);
                                }
                            },
                            None => {
                                assert(after == before);
                                assert forall|i: int| 0 <= i < after.len() implies
                                    (mods.subrange(j + 1, mods.len() as int).contains(reg[(#[trigger] after[i]).0 as int])
                                        || after[i].1 == scan(self.entities@, reg[after[i].0 as int])) by {
                                    assert(after[i].0 != ri);
                                    if mods.subrange(j as int, mods.len() as int).contains(reg[after[i].0 as int]) {
                                        let w = choose|w: int| 0 <= w < mods.len() - j && mods.subrange(j as int, mods.len() as int)[w] == reg[after[i].0 as int];
                                        if w > 0 {
                                            assert(mods.subrange(j + 1, mods.len() as int)[w - 1] == reg[after[i].0 as int]);
                                        }
                                    }
                                }
                            },
                        }
                    }
                },
                None => {
                    proof {
                        assert forall|i: int| 0 <= i < before.len() implies
                            (mods.subrange(j + 1, mods.len() as int).contains(reg[(#[trigger] before[i]).0 as int])
                                || before[i].1 == scan(self.entities@, reg[before[i].0 as int])) by {
                            assert(reg[before[i].0 as int] != kind);
                            if mods.subrange(j as int, mods.len() as int).contains(reg[before[i].0 as int]) {
                                let w = choose|w: int| 0 <= w < mods.len() - j && mods.subrange(j as int, mods.len() as int)[w] == reg[before[i].0 as int];
                                if w > 0 {
                                    assert(mods.subrange(j + 1, mods.len() as int)[w - 1] == reg[before[i].0 as int]);
                                }
                            }
                        }
                    }
                },
            }
            j = j + 1;
        }
        self.modified.reset();
        proof {
            let pairs = cache_pairs(self.cache);
            assert forall|i: int| 0 <= i < pairs.len() implies
                (#[trigger] pairs[i]).1 == scan(self.entities@, self.registry@[pairs[i].0 as int]) by {
                assert(!Seq::<TypeId>::empty().contains(self.registry@[pairs[i].0 as int]));
            }
        }
    }

    /// Positions of the entities that hold a component of the given kind, in
    /// order; answered from the cache when the cache entry is still valid.
    pub fn entity_indices_with_kind(&mut self, kind: &TypeId) -> (r: Vec<usize>)
        requires
            old(self).wf(),
        ensures
            final(self).wf(),
            final(self).entities() == old(self).entities(),
            r@ == scan(old(self).entities(), *kind),
    {
        self.upate_caches();
        let ri = self.register(kind);
        proof {
            lemma_keys(cache_pairs(self.cache), ri);
        }
        match cache_get(&self.cache, ri) {
            Some(v) => {
                proof {
                    let pairs = cache_pairs(self.cache);
                    let i = first_key(pairs, ri)->0;
                    assert(pairs[i].1 == scan(self.entities@, self.registry@[pairs[i].0 as int]));
                }
                let out = v.clone();
                assert(out@ =~= v@);
                return out;
            },
            None => {},
        }
        let fresh = self.compute_scan(kind);
        let ghost before = cache_pairs(self.cache);
        let copy = fresh.clone();
        assert(copy@ =~= fresh@);
        cache_insert(&mut self.cache, ri, copy);
        proof {
            let after = cache_pairs(self.cache);
            assert(without_last_key(before, ri) == before);
            assert(after == before.push((ri, fresh@)));
            assert forall|a: int, b: int| 0 <= a < after.len() && 0 <= b < after.len() && a != b
                implies after[a].0 != after[b].0 by {
                if a == after.len() - 1 {
                    assert(before[b] == after[b]);
                } else if b == after.len() - 1 {
                    assert(before[a] == after[a]);
                }
            }
            assert forall|i: int| 0 <= i < after.len() implies {
                &&& (#[trigger] after[i]).0 < self.registry@.len()
                &&& after[i].1 == scan(self.entities@, self.registry@[after[i].0 as int])
            } by {
                if i < before.len() {
                    assert(after[i] == before[i]);
                }
            }
        }
        fresh
    }

    /// Returns references to all components of type T, in the order of the
    /// entities that hold them; `None` when no entity holds one.
    pub fn get_all_components<T>(&mut self) -> (r: Option<Vec<ComponentReference<T>>>) where
        T: 'static + Component,
        requires
            old(self).wf(),
        ensures
            final(self).wf(),
            final(self).entities() == old(self).entities(),
            exists|k: TypeId| #[trigger] components_answer(old(self).entities(), k, r),
    {
        let key = type_key::<T>();
        let idxs = self.entity_indices_with_kind(&key);
        proof {
            lemma_scan(self.entities@, key);
        }
        let mut out: Vec<ComponentReference<T>> = Vec::new();
        let mut j: usize = 0;
        while j < idxs.len()
            invariant
                0 <= j <= idxs@.len(),
                idxs@ == scan(self.entities@, key),
                out@.len() == j,
                forall|m: int|
                    0 <= m < idxs@.len() ==> 0 <= #[trigger] idxs@[m] < self.entities@.len()
                        && self.entities@[idxs@[m] as int].kinds().contains(key),
                forall|m: int|
                    0 <= m < j ==> {
                        &&& (#[trigger] out@[m]).kind() == key
                        &&& out@[m].cell() == self.entities@[idxs@[m] as int].cells()[first_index(
                            self.entities@[idxs@[m] as int].kinds(),
                            key,
                        )->0]
                    },
            decreases idxs@.len() - j,
        {
            let i = idxs[j];
            assert(self.entities@[i as int].kinds().contains(key));
            match self.entities[i].component_of_kind::<T>(&key) {
                Some(c) => {
                    out.push(c);
                },
                None => {},
            }
            j = j + 1;
        }
        let r = if out.len() > 0 {
            Some(out)
        } else {
            None
        };
        assert(components_answer(self.entities@, key, r));
        r
    }

    /// Returns all entities that hold a component of type T, in order; `None`
    /// when no entity holds one.
    pub fn get_all_entities_with_component<T>(&mut self) -> (r: Option<Vec<&Entity>>) where
        T: 'static + Component,
        requires
            old(self).wf(),
        ensures
            final(self).wf(),
            final(self).entities() == old(self).entities(),
            exists|k: TypeId| #[trigger] entities_answer(old(self).entities(), k, r),
    {
        let key = type_key::<T>();
        let idxs = self.entity_indices_with_kind(&key);
        proof {
            lemma_scan(self.entities@, key);
        }
        let mut out: Vec<&Entity> = Vec::new();
        let mut j: usize = 0;
        while j < idxs.len()
            invariant
                0 <= j <= idxs@.len(),
                idxs@ == scan(self.entities@, key),
                out@.len() == j,
                forall|m: int|
                    0 <= m < idxs@.len() ==> 0 <= #[trigger] idxs@[m] < self.entities@.len(),
                forall|m: int| 0 <= m < j ==> *(#[trigger] out@[m]) == self.entities@[idxs@[m] as int],
            decreases idxs@.len() - j,
        {
            let i = idxs[j];
            out.push(&self.entities[i]);
            j = j + 1;
        }
        let r = if out.len() > 0 {
            Some(out)
        } else {
            None
        };
        assert(entities_answer(self.entities@, key, r));
        r
    }

    /// Adds a new component of type T to the entity with the given id.
    ///
    /// # Errors
    ///
    /// The outer error when no entity has the id; the inner one when the entity
    /// already has a component of type `T`.
    #[verifier::spinoff_prover]
    pub fn add_component_to<T>(&mut self, entity_id: UUID) -> (r: Result<Result<(), ComponentError>, Error>) where
        T: 'static + Component,
        requires
            old(self).wf(),
        ensures
            final(self).wf(),
            match first_with_id(old(self).entities(), entity_id) {
                Some(i) => r matches Ok(inner) && final(self).entities().len() == old(self).entities().len()
                    && final(self).entities() == old(self).entities().update(i, final(self).entities()[i])
                    && final(self).entities()[i].id() == entity_id
                    && exists|k: TypeId| #[trigger] add_outcome(
                        old(self).entities()[i].kinds(),
                        final(self).entities()[i].kinds(),
                        k,
                        inner,
                    )
                    && (inner is Ok ==> final(self).entities()[i].cells().len() == old(self).entities()[i].cells().len() + 1
                        && final(self).entities()[i].cells().drop_last() == old(self).entities()[i].cells())
                    && (inner is Err ==> final(self).entities() == old(self).entities()),
                None => r == Err::<Result<(), ComponentError>, Error>(Error::EntityDoesNotExist)
                    && final(self).entities() == old(self).entities(),
            },
    {
        match self.position_of(entity_id) {
            None => Err(Error::EntityDoesNotExist),
            Some(i) => {
                proof {
                    lemma_first_with_id(self.entities@, entity_id);
                }
                let key = type_key::<T>();
                let ghost old_es = self.entities@;
                let mut entity = self.entities.remove(i);
                let inner = entity.add_component_of_kind::<T>(key);
                self.entities.insert(i, entity);
                proof {
                    assert(self.entities@ =~= old_es.update(i as int, self.entities@[i as int]));
                    if inner is Err {
                        assert(self.entities@ =~= old_es);
                    }
                    assert forall|x: int| 0 <= x < self.entities@.len() implies unique_kinds(
                        #[trigger] self.entities@[x].kinds(),
                    ) by {
                        if x != i {
                            assert(self.entities@[x] == old_es[x]);
                        }
                    }
                }
                if inner.is_ok() {
                    self.modified.kind_changed(key);
                }
                proof {
                    let es = self.entities@;
                    let pairs = cache_pairs(self.cache);
                    assert forall|x: int| 0 <= x < pairs.len() implies {
                        ||| self.modified.entity_modified
                        ||| self.modified.modified_components@.contains(self.registry@[(#[trigger] pairs[x]).0 as int])
                        ||| pairs[x].1 == scan(es, self.registry@[pairs[x].0 as int])
                    } by {
                        let k2 = self.registry@[pairs[x].0 as int];
                        if inner.is_ok() && k2 == key {
                            assert(self.modified.modified_components@.last() == key);
                        } else {
                            if !self.modified.entity_modified && !self.modified.modified_components@.contains(k2) {
                                if inner.is_ok() {
                                    assert(self.modified.modified_components@ =~= old(self).modified.modified_components@.push(key));
                                    assert(!old(self).modified.modified_components@.contains(k2)) by {
                                        if old(self).modified.modified_components@.contains(k2) {
                                            let w = choose|w: int| 0 <= w < old(self).modified.modified_components@.len() && old(self).modified.modified_components@[w] == k2;
                                            assert(self.modified.modified_components@[w] == k2);
                                        }
                                    }
                                }
                                lemma_scan_update(old_es, i as int, es[i as int], k2);
                            }
                        }
                    }
                    assert(add_outcome(old_es[i as int].kinds(), es[i as int].kinds(), key, inner));
                }
                Ok(inner)
            },
        }
    }

    /// Removes the component of type T from the entity with the given id.
    ///
    /// # Errors
    ///
    /// The outer error when no entity has the id; the inner one when the entity
    /// has no component of type `T`.
    #[verifier::spinoff_prover]
    pub fn remove_component_from<T>(&mut self, entity_id: UUID) -> (r: Result<Result<(), ComponentError>, Error>) where
        T: 'static + Component,
        requires
            old(self).wf(),
        ensures
            final(self).wf(),
            match first_with_id(old(self).entities(), entity_id) {
                Some(i) => r matches Ok(inner) && final(self).entities().len() == old(self).entities().len()
                    && final(self).entities() == old(self).entities().update(i, final(self).entities()[i])
                    && final(self).entities()[i].id() == entity_id
                    && exists|k: TypeId| #[trigger] remove_outcome(
                        old(self).entities()[i].kinds(),
                        final(self).entities()[i].kinds(),
                        k,
                        inner,
                    ) && (inner is Ok ==> final(self).entities()[i].cells() == old(
                        self,
                    ).entities()[i].cells().remove(first_index(old(self).entities()[i].kinds(), k)->0))
                    && (inner is Err ==> final(self).entities() == old(self).entities()),
                None => r == Err::<Result<(), ComponentError>, Error>(Error::EntityDoesNotExist)
                    && final(self).entities() == old(self).entities(),
            },
    {
        match self.position_of(entity_id) {
            None => Err(Error::EntityDoesNotExist),
            Some(i) => {
                proof {
                    lemma_first_with_id(self.entities@, entity_id);
                }
                let key = type_key::<T>();
                let ghost old_es = self.entities@;
                let mut entity = self.entities.remove(i);
                let inner = entity.remove_kind(&key);
                self.entities.insert(i, entity);
                proof {
                    assert(self.entities@ =~= old_es.update(i as int, self.entities@[i as int]));
                    if inner is Err {
                        assert(self.entities@ =~= old_es);
                    }
                    assert forall|x: int| 0 <= x < self.entities@.len() implies unique_kinds(
                        #[trigger] self.entities@[x].kinds(),
                    ) by {
                        if x != i {
                            assert(self.entities@[x] == old_es[x]);
                        }
                    }
                }
                if inner.is_ok() {
                    self.modified.kind_changed(key);
                }
                proof {
                    let es = self.entities@;
                    let pairs = cache_pairs(self.cache);
                    assert forall|x: int| 0 <= x < pairs.len() implies {
                        ||| self.modified.entity_modified
                        ||| self.modified.modified_components@.contains(self.registry@[(#[trigger] pairs[x]).0 as int])
                        ||| pairs[x].1 == scan(es, self.registry@[pairs[x].0 as int])
                    } by {
                        let k2 = self.registry@[pairs[x].0 as int];
                        if inner.is_ok() && k2 == key {
                            assert(self.modified.modified_components@.last() == key);
                        } else {
                            if !self.modified.entity_modified && !self.modified.modified_components@.contains(k2) {
                                if inner.is_ok() {
                                    assert(self.modified.modified_components@ =~= old(self).modified.modified_components@.push(key));
                                    assert(!old(self).modified.modified_components@.contains(k2)) by {
                                        if old(self).modified.modified_components@.contains(k2) {
                                            let w = choose|w: int| 0 <= w < old(self).modified.modified_components@.len() && old(self).modified.modified_components@[w] == k2;
                                            assert(self.modified.modified_components@[w] == k2);
                                        }
                                    }
                                }
                                lemma_scan_update(old_es, i as int, es[i as int], k2);
                            }
                        }
                    }
                }
                Ok(inner)
            },
        }
    }

    /// Performs update on all components of the entity with the given id;
    /// `Ok` holds the record of each call (a component borrowed elsewhere at
    /// the time is skipped, which its record shows).
    ///
    /// # Errors
    ///
    /// Returns an error if the entity with the `entity_id` doesn't exist in the world.
    pub fn update_entity(&mut self, entity_id: UUID) -> (r: Result<Vec<Called>, Error>)
        requires
            old(self).wf(),
        ensures
            final(self).wf(),
            final(self).entities() == old(self).entities(),
            match first_with_id(old(self).entities(), entity_id) {
                Some(i) => r matches Ok(calls) && targets(calls@) == old(self).entities()[i].cells()
                    && all_for(calls@, Hook::Update),
                None => r is Err && r->Err_0 == Error::EntityDoesNotExist,
            },
    {
        match self.position_of(entity_id) {
            None => Err(Error::EntityDoesNotExist),
            Some(i) => {
                let ghost old_es = self.entities@;
                let mut entity = self.entities.remove(i);
                let calls = entity.update();
                self.entities.insert(i, entity);
                assert(self.entities@ =~= old_es);
                Ok(calls)
            },
        }
    }

    /// Finds and removes the entity by its id, and calls decatification on its
    /// components; `Ok` holds the record of each call (a component borrowed
    /// elsewhere at the time is skipped, which its record shows).
    ///
    /// # Errors
    ///
    /// Returns an error if the entity with the `entity_id` doesn't exist in the world.
    pub fn remove_entity_by_id(&mut self, entity_id: UUID) -> (r: Result<Vec<Called>, Error>)
        requires
            old(self).wf(),
        ensures
            final(self).wf(),
            match first_with_id(old(self).entities(), entity_id) {
                Some(i) => r matches Ok(calls) && targets(calls@) == old(self).entities()[i].cells()
                    && all_for(calls@, Hook::Decatification)
                    && final(self).entities() == old(self).entities().remove(i),
                None => r is Err && r->Err_0 == Error::EntityDoesNotExist
                    && final(self).entities() == old(self).entities(),
            },
    {
        match self.position_of(entity_id) {
            Some(i) => {
                self.modified.entity_changed();
                let e = self.entities.remove(i);
                Ok(e.decatify())
            },
            None => Err(Error::EntityDoesNotExist),
        }
    }

    /// Finds and removes the entity by its reference, and calls decatification
    /// on the removed entity's components, as `remove_entity_by_id` does.
    ///
    /// # Errors
    ///
    /// Returns an error if the entity doesn't exist in the world.
    pub fn remove_entity_by_ref(&mut self, entity: &Entity) -> (r: Result<Vec<Called>, Error>)
        requires
            old(self).wf(),
        ensures
            final(self).wf(),
            match first_with_id(old(self).entities(), entity.id()) {
                Some(i) => r matches Ok(calls) && targets(calls@) == old(self).entities()[i].cells()
                    && all_for(calls@, Hook::Decatification)
                    && final(self).entities() == old(self).entities().remove(i),
                None => r is Err && r->Err_0 == Error::EntityDoesNotExist
                    && final(self).entities() == old(self).entities(),
            },
    {
        self.remove_entity_by_id(entity.get_id())
    }

    /// Returns the total number of entities.
    pub fn get_entity_count(&self) -> (r: usize)
        ensures
            r == self.entities().len(),
    {
        self.entities.len()
    }

    /// The first entity with the given id.
    pub fn get_entity_by_id(&self, id: UUID) -> (r: Option<&Entity>)
        ensures
            match first_with_id(self.entities(), id) {
                Some(i) => r matches Some(e) && *e == self.entities()[i],
                None => r is None,
            },
    {
        match self.position_of(id) {
            Some(i) => Some(&self.entities[i]),
            None => None,
        }
    }
}

/// No kind is registered twice.
pub open spec fn unique_kinds_of(s: Seq<TypeId>) -> bool {
    forall|i: int, j: int| 0 <= i < s.len() && 0 <= j < s.len() && i != j ==> s[i] != s[j]
}

} // verus!
