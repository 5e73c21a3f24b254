use std::any::TypeId;
use std::cell::{Ref, RefMut};
use std::marker::PhantomData;

use rand::Rng;
use vstd::prelude::*;

use crate::ecs::component::{all_for, same_kind, targets, type_key, Called, Component, ComponentCell, Hook};

verus! {

/// Identifier of an entity.
pub type UUID = u64;

/// Why a component operation on an entity was refused.
#[derive(Debug, PartialEq, Eq, Structural)]
pub enum ComponentError {
    /// The entity has no component of the requested type.
    ComponentDoesNotExist,
    /// The entity already has a component of the requested type.
    ComponentAlreadyExists,
}

/// A component together with the key of its concrete type.
pub struct ComponentSlot {
    pub kind: TypeId,
    pub cell: ComponentCell,
}

/// The kinds of a sequence of slots, in order.
pub open spec fn kinds_of(slots: Seq<ComponentSlot>) -> Seq<TypeId> {
    slots.map_values(|s: ComponentSlot| s.kind)
}

/// The cells of a sequence of slots, in order.
pub open spec fn cells_of(slots: Seq<ComponentSlot>) -> Seq<ComponentCell> {
    slots.map_values(|s: ComponentSlot| s.cell)
}

/// No kind occurs twice.
pub open spec fn unique_kinds(s: Seq<TypeId>) -> bool {
    forall|i: int, j: int| 0 <= i < s.len() && 0 <= j < s.len() && i != j ==> s[i] != s[j]
}

/// First position of `k` in `s`, if any.
pub open spec fn first_index(s: Seq<TypeId>, k: TypeId) -> Option<int>
    decreases s.len(),
{
    if s.len() == 0 {
        None
    } else {
        match first_index(s.drop_last(), k) {
            Some(i) => Some(i),
            None => if s.last() == k { Some((s.len() - 1) as int) } else { None },
        }
    }
}

pub proof fn lemma_first_index(s: Seq<TypeId>, k: TypeId)
    ensures
        match first_index(s, k) {
            Some(i) => 0 <= i < s.len() && s[i] == k && forall|j: int| 0 <= j < i ==> s[j] != k,
            None => !s.contains(k),
        },
    decreases s.len(),
{
    if s.len() > 0 {
        let p = s.drop_last();
        lemma_first_index(p, k);
        assert forall|j: int| 0 <= j < p.len() implies p[j] == s[j] by {}
        match first_index(p, k) {
            Some(i) => {},
            None => {
                if s.last() != k {
                    assert forall|j: int| 0 <= j < s.len() implies s[j] != k by {
                        if j < s.len() - 1 {
                            assert(p[j] == s[j]);
                            assert(!p.contains(k));
                        }
                    }
                } else {
                    assert forall|j: int| 0 <= j < s.len() - 1 implies s[j] != k by {
                        assert(p[j] == s[j]);
                        assert(!p.contains(k));
                    }
                }
            },
        }
    }
}

/// Removing a slot removes its kind and its cell.
pub proof fn lemma_slots_remove(slots: Seq<ComponentSlot>, i: int)
    requires
        0 <= i < slots.len(),
    ensures
        kinds_of(slots.remove(i)) == kinds_of(slots).remove(i),
        cells_of(slots.remove(i)) == cells_of(slots).remove(i),
{
    assert(kinds_of(slots.remove(i)) =~= kinds_of(slots).remove(i));
    assert(cells_of(slots.remove(i)) =~= cells_of(slots).remove(i));
}

/// Appending a slot appends its kind and its cell.
pub proof fn lemma_slots_push(slots: Seq<ComponentSlot>, slot: ComponentSlot)
    ensures
        kinds_of(slots.push(slot)) == kinds_of(slots).push(slot.kind),
        cells_of(slots.push(slot)) == cells_of(slots).push(slot.cell),
{
    assert(kinds_of(slots.push(slot)) =~= kinds_of(slots).push(slot.kind));
    assert(cells_of(slots.push(slot)) =~= cells_of(slots).push(slot.cell));
}

/// Appending a kind that does not occur keeps the kinds unique.
pub proof fn lemma_unique_push(s: Seq<TypeId>, k: TypeId)
    requires
        unique_kinds(s),
        !s.contains(k),
    ensures
        unique_kinds(s.push(k)),
{
    let n = s.push(k);
    assert forall|i: int, j: int| 0 <= i < n.len() && 0 <= j < n.len() && i != j
        implies n[i] != n[j] by {
        if i == n.len() - 1 {
            assert(s[j] == n[j]);
        } else if j == n.len() - 1 {
            assert(s[i] == n[i]);
        }
    }
}

/// Removing a kind keeps the kinds unique.
pub proof fn lemma_unique_remove(s: Seq<TypeId>, i: int)
    requires
        unique_kinds(s),
        0 <= i < s.len(),
    ensures
        unique_kinds(s.remove(i)),
{
    let n = s.remove(i);
    assert forall|a: int, b: int| 0 <= a < n.len() && 0 <= b < n.len() && a != b
        implies n[a] != n[b] by {
        let a2 = if a < i { a } else { a + 1 };
        let b2 = if b < i { b } else { b + 1 };
        assert(n[a] == s[a2]);
        assert(n[b] == s[b2]);
    }
}

/// The unique position of a kind in a sequence without repeated kinds.
pub proof fn lemma_unique_index(s: Seq<TypeId>, i: int, k: TypeId)
    requires
        unique_kinds(s),
        0 <= i < s.len(),
        s[i] == k,
    ensures
        first_index(s, k) == Some(i),
{
    lemma_first_index(s, k);
}

/// A handle to one component of an entity, typed as `T`.
pub struct ComponentReference<T> {
    kind: TypeId,
    cell: ComponentCell,
    phantom: PhantomData<T>,
}

impl<T> ComponentReference<T> {
    /// Key of the type of the referenced component.
    pub closed spec fn kind(&self) -> TypeId {
        self.kind
    }

    /// The referenced component.
    pub closed spec fn cell(&self) -> ComponentCell {
        self.cell
    }

    /// Another reference to the same component.
    pub fn share(&self) -> (r: Self)
        ensures
            r.kind() == self.kind(),
            r.cell() == self.cell(),
    {
        ComponentReference { kind: self.kind, cell: self.cell.share(), phantom: PhantomData }
    }
}

impl<T: 'static> ComponentReference<T> {
    /// Borrows the underlying component: `None`, in place of a panic, when it
    /// is not a `T` or is mutably borrowed elsewhere.
    pub fn borrow(&self) -> Option<Ref<'_, T>> {
        self.cell.borrow_as::<T>()
    }

    /// Mutably borrows the underlying component: `None`, in place of a panic,
    /// when it is not a `T` or is borrowed elsewhere.
    pub fn borrow_mut(&self) -> Option<RefMut<'_, T>> {
        self.cell.borrow_mut_as::<T>()
    }
}

/// Position of the first slot of the given kind.
fn find_kind(slots: &Vec<ComponentSlot>, kind: &TypeId) -> (r: Option<usize>)
    ensures
        r matches Some(i) ==> Some(i as int) == first_index(kinds_of(slots@), *kind),
        r is None <==> first_index(kinds_of(slots@), *kind) is None,
{
    proof {
        lemma_first_index(kinds_of(slots@), *kind);
    }
    let mut i: usize = 0;
    while i < slots.len()
        invariant
            0 <= i <= slots@.len(),
            forall|j: int| 0 <= j < i ==> kinds_of(slots@)[j] != *kind,
        decreases slots@.len() - i,
    {
        if same_kind(&slots[i].kind, kind) {
            proof {
                let ks = kinds_of(slots@);
                assert(ks[i as int] == *kind);
                lemma_first_index(ks, *kind);
                match first_index(ks, *kind) {
                    Some(f) => {
                        assert(f == i);
                    },
                    None => {
                        assert(ks.contains(*kind));
                    },
                }
            }
            return Some(i);
        }
        assert(kinds_of(slots@)[i as int] == slots@[i as int].kind);
        i = i + 1;
    }
    proof {
        assert(!kinds_of(slots@).contains(*kind));
    }
    None
}

/// A fresh random entity id (`rand::thread_rng().gen::<u64>()`); nothing is
/// stated of its value.
#[verifier::external_body]
fn random_id() -> u64 {
    rand::thread_rng().gen::<u64>()
}

/// An entity: an id and at most one component of each type.
pub struct Entity {
    id: UUID,
    slots: Vec<ComponentSlot>,
}

/// The outcome of adding a component of kind `k`.
pub open spec fn add_outcome(
    old_kinds: Seq<TypeId>,
    new_kinds: Seq<TypeId>,
    k: TypeId,
    r: Result<(), ComponentError>,
) -> bool {
    if old_kinds.contains(k) {
        r == Err::<(), ComponentError>(ComponentError::ComponentAlreadyExists) && new_kinds == old_kinds
    } else {
        r == Ok::<(), ComponentError>(()) && new_kinds == old_kinds.push(k)
    }
}

/// The outcome of removing the component of kind `k`.
pub open spec fn remove_outcome(
    old_kinds: Seq<TypeId>,
    new_kinds: Seq<TypeId>,
    k: TypeId,
    r: Result<(), ComponentError>,
) -> bool {
    match first_index(old_kinds, k) {
        Some(i) => r == Ok::<(), ComponentError>(()) && new_kinds == old_kinds.remove(i),
        None => r == Err::<(), ComponentError>(ComponentError::ComponentDoesNotExist)
            && new_kinds == old_kinds,
    }
}

impl Entity {
    #[verifier::type_invariant]
    pub(crate) open spec fn inv(self) -> bool {
        unique_kinds(self.kinds())
    }

    /// The id of the entity.
    pub closed spec fn id(&self) -> UUID {
        self.id
    }

    /// Kinds of the components, in the order they were added.
    pub closed spec fn kinds(&self) -> Seq<TypeId> {
        kinds_of(self.slots@)
    }

    /// The components, in the same order as `kinds`.
    pub closed spec fn cells(&self) -> Seq<ComponentCell> {
        cells_of(self.slots@)
    }

    /// There is one cell for each kind.
    pub proof fn lemma_cells_match_kinds(&self)
        ensures
            self.cells().len() == self.kinds().len(),
    {
    }

    /// An entity with the given id and components.
    pub(crate) fn from_parts(id: UUID, slots: Vec<ComponentSlot>) -> (r: Entity)
        requires
            unique_kinds(kinds_of(slots@)),
        ensures
            r.id() == id,
            r.kinds() == kinds_of(slots@),
            r.cells() == cells_of(slots@),
    {
        Entity { id, slots }
    }

    /// Creates a new entity with no components and a random id.
    pub fn new() -> (r: Entity)
        ensures
            unique_kinds(r.kinds()),
            r.kinds() == Seq::<TypeId>::empty(),
            r.cells() == Seq::<ComponentCell>::empty(),
    {
        let e = Entity { id: random_id(), slots: Vec::new() };
        assert(e.kinds() =~= Seq::<TypeId>::empty());
        assert(e.cells() =~= Seq::<ComponentCell>::empty());
        e
    }

    /// Returns internal entity id.
    pub fn get_id(&self) -> (r: UUID)
        ensures
            r == self.id(),
    {
        self.id
    }

    /// Number of components of the entity.
    pub fn component_count(&self) -> (r: usize)
        ensures
            r == self.kinds().len(),
    {
        self.slots.len()
    }

    /// Position of the component of the given kind, if the entity has one.
    pub fn index_of_kind(&self, kind: &TypeId) -> (r: Option<usize>)
        ensures
            r matches Some(i) ==> Some(i as int) == first_index(self.kinds(), *kind),
            r is None <==> first_index(self.kinds(), *kind) is None,
    {
        find_kind(&self.slots, kind)
    }

    /// Whether the entity has a component of the given kind.
    pub fn has_kind(&self, kind: &TypeId) -> (r: bool)
        ensures
            r == self.kinds().contains(*kind),
    {
        proof {
            lemma_first_index(self.kinds(), *kind);
        }
        self.index_of_kind(kind).is_some()
    }

    /// Checks if the entity has component of type T.
    pub fn has_component<T: 'static>(&self) -> (r: bool)
        ensures
            exists|k: TypeId| r == #[trigger] self.kinds().contains(k),
    {
        let key = type_key::<T>();
        self.has_kind(&key)
    }

    /// Adds a new `T` under `kind`, which must be the key of `T`.
    pub(crate) fn add_component_of_kind<T: 'static + Component>(&mut self, kind: TypeId) -> (r: Result<
        (),
        ComponentError,
    >)
        ensures
            final(self).id() == old(self).id(),
            add_outcome(old(self).kinds(), final(self).kinds(), kind, r),
            r is Ok ==> final(self).cells().len() == old(self).cells().len() + 1
                && final(self).cells().drop_last() == old(self).cells(),
            r is Err ==> *final(self) == *old(self),
            unique_kinds(final(self).kinds()),
            forall|k: TypeId|
                k != kind ==> (#[trigger] final(self).kinds().contains(k) == old(self).kinds().contains(
                    k,
                )),
    {
        proof {
            use_type_invariant(&*self);
        }
        if self.has_kind(&kind) {
            return Err(ComponentError::ComponentAlreadyExists);
        }
        let mut c = T::mew();
        c.awawa();
        let ghost old_kinds = self.kinds();
        proof {
            use_type_invariant(&*self);
        }
        let slot = ComponentSlot { kind, cell: ComponentCell::new(c) };
        proof {
            lemma_slots_push(self.slots@, slot);
            lemma_unique_push(old_kinds, kind);
        }
        let ghost old_cells = self.cells();
        let mut slots = Vec::new();
        std::mem::swap(&mut slots, &mut self.slots);
        slots.push(slot);
        self.slots = slots;
        proof {
            assert(self.cells().drop_last() =~= old_cells);
            assert forall|k: TypeId| k != kind implies (#[trigger] self.kinds().contains(k)
                == old_kinds.contains(k)) by {
                if old_kinds.contains(k) {
                    let w = choose|w: int| 0 <= w < old_kinds.len() && old_kinds[w] == k;
                    assert(self.kinds()[w] == k);
                }
                if self.kinds().contains(k) {
                    let w = choose|w: int| 0 <= w < self.kinds().len() && self.kinds()[w] == k;
                    assert(old_kinds[w] == k);
                }
            }
        }
        Ok(())
    }

    /// Adds a component of type T to the entity.
    ///
    /// # Errors
    ///
    /// Returns an error if the entity already has the component of type `T`.
    pub fn add_component<T: 'static + Component>(&mut self) -> (r: Result<(), ComponentError>)
        ensures
            final(self).id() == old(self).id(),
            exists|k: TypeId| #[trigger] add_outcome(old(self).kinds(), final(self).kinds(), k, r),
            r is Ok ==> exists|c: ComponentCell| final(self).cells() == #[trigger] old(self).cells().push(c),
            r is Err ==> *final(self) == *old(self),
            unique_kinds(final(self).kinds()),
    {
        let key = type_key::<T>();
        let r = self.add_component_of_kind::<T>(key);
        proof {
            if r is Ok {
                let c = self.cells().last();
                assert(self.cells() =~= old(self).cells().push(c));
            }
        }
        r
    }

    /// Removes the component of the given kind from the entity.
    pub fn remove_kind(&mut self, kind: &TypeId) -> (r: Result<(), ComponentError>)
        ensures
            final(self).id() == old(self).id(),
            remove_outcome(old(self).kinds(), final(self).kinds(), *kind, r),
            r is Ok ==> final(self).cells() == old(self).cells().remove(
                first_index(old(self).kinds(), *kind)->0,
            ),
            r is Err ==> *final(self) == *old(self),
            unique_kinds(final(self).kinds()),
            !final(self).kinds().contains(*kind),
            forall|k: TypeId|
                k != *kind ==> (#[trigger] final(self).kinds().contains(k) == old(self).kinds().contains(
                    k,
                )),
    {
        proof {
            use_type_invariant(&*self);
            lemma_first_index(self.kinds(), *kind);
        }
        let ghost old_kinds = self.kinds();
        match self.index_of_kind(kind) {
            Some(i) => {
                proof {
                    lemma_first_index(self.kinds(), *kind);
                    lemma_slots_remove(self.slots@, i as int);
                    lemma_unique_remove(self.kinds(), i as int);
                }
                let mut slots = Vec::new();
                std::mem::swap(&mut slots, &mut self.slots);
                slots.remove(i);
                self.slots = slots;
                proof {
                    let n = self.kinds();
                    assert(n == old_kinds.remove(i as int));
                    assert forall|k: TypeId| k != *kind || k == *kind implies (#[trigger] n.contains(k)
                        == (old_kinds.contains(k) && k != *kind)) by {
                        if n.contains(k) {
                            let w = choose|w: int| 0 <= w < n.len() && n[w] == k;
                            let w2 = if w < i { w } else { w + 1 };
                            assert(old_kinds[w2] == k);
                            assert(w2 != i as int);
                        }
                        if old_kinds.contains(k) && k != *kind {
                            let w = choose|w: int| 0 <= w < old_kinds.len() && old_kinds[w] == k;
                            assert(w != i as int);
                            let w2 = if w < i { w } else { w - 1 };
                            assert(n[w2] == k);
                        }
                    }
                }
                Ok(())
            },
            None => Err(ComponentError::ComponentDoesNotExist),
        }
    }

    /// Removes component of type T from the entity.
    ///
    /// # Errors
    ///
    /// Returns an error if the entity doesn't have the component of type `T`.
    pub fn remove_component<T: 'static + Component>(&mut self) -> (r: Result<(), ComponentError>)
        ensures
            final(self).id() == old(self).id(),
            exists|k: TypeId|
                #[trigger] remove_outcome(old(self).kinds(), final(self).kinds(), k, r) && (r is Ok
                    ==> final(self).cells() == old(self).cells().remove(first_index(old(self).kinds(), k)->0)),
            r is Err ==> *final(self) == *old(self),
            unique_kinds(final(self).kinds()),
    {
        let key = type_key::<T>();
        self.remove_kind(&key)
    }

    /// A reference to the component of the given kind, typed as `T`.
    pub fn component_of_kind<T>(&self, kind: &TypeId) -> (r: Option<ComponentReference<T>>)
        ensures
            r is None <==> !self.kinds().contains(*kind),
            r matches Some(c) ==> c.kind() == *kind && c.cell() == self.cells()[first_index(
                self.kinds(),
                *kind,
            )->0],
    {
        proof {
            lemma_first_index(self.kinds(), *kind);
        }
        match self.index_of_kind(kind) {
            Some(i) => {
                assert(self.cells()[i as int] == self.slots@[i as int].cell);
                Some(
                    ComponentReference {
                        kind: self.slots[i].kind,
                        cell: self.slots[i].cell.share(),
                        phantom: PhantomData,
                    },
                )
            },
            None => None,
        }
    }

    /// Acquires a reference to the component of type T.
    pub fn get_component<T: 'static>(&self) -> (r: Option<ComponentReference<T>>)
        ensures
            exists|k: TypeId|
                {
                    &&& r is None <==> !#[trigger] self.kinds().contains(k)
                    &&& r matches Some(c) ==> c.kind() == k
                },
    {
        let key = type_key::<T>();
        self.component_of_kind(&key)
    }

    /// Performs update on all components of the entity, in order, and returns
    /// the record of each call; a component that is borrowed elsewhere at the
    /// time is skipped, which its record shows.
    pub fn update(&mut self) -> (r: Vec<Called>)
        ensures
            *final(self) == *old(self),
            unique_kinds(final(self).kinds()),
            targets(r@) == old(self).cells(),
            all_for(r@, Hook::Update),
    {
        proof {
            use_type_invariant(&*self);
        }
        let mut calls: Vec<Called> = Vec::new();
        let mut i: usize = 0;
        while i < self.slots.len()
            invariant
                0 <= i <= self.slots@.len(),
                targets(calls@) == cells_of(self.slots@).take(i as int),
                all_for(calls@, Hook::Update),
            decreases self.slots@.len() - i,
        {
            let call = self.slots[i].cell.update();
            let ghost before = calls@;
            calls.push(call);
            proof {
                assert(targets(calls@) =~= targets(before).push(call.target()));
                assert(cells_of(self.slots@).take(i + 1) =~= cells_of(self.slots@).take(i as int).push(
                    self.slots@[i as int].cell,
                ));
            }
            i = i + 1;
        }
        assert(cells_of(self.slots@).take(i as int) =~= cells_of(self.slots@));
        calls
    }

    /// Destroys the entity and calls decatification on all of its components,
    /// in order, returning the record of each call; a component that is
    /// borrowed elsewhere at the time is skipped, which its record shows.
    pub fn decatify(self) -> (r: Vec<Called>)
        ensures
            targets(r@) == self.cells(),
            all_for(r@, Hook::Decatification),
    {
        let mut calls: Vec<Called> = Vec::new();
        let mut i: usize = 0;
        while i < self.slots.len()
            invariant
                0 <= i <= self.slots@.len(),
                targets(calls@) == cells_of(self.slots@).take(i as int),
                all_for(calls@, Hook::Decatification),
            decreases self.slots@.len() - i,
        {
            let call = self.slots[i].cell.decatify();
            let ghost before = calls@;
            calls.push(call);
            proof {
                assert(targets(calls@) =~= targets(before).push(call.target()));
                assert(cells_of(self.slots@).take(i + 1) =~= cells_of(self.slots@).take(i as int).push(
                    self.slots@[i as int].cell,
                ));
            }
            i = i + 1;
        }
        assert(cells_of(self.slots@).take(i as int) =~= cells_of(self.slots@));
        calls
    }
}

/// The kinds after offering a builder a component of kind `k`.
pub open spec fn offered(old_kinds: Seq<TypeId>, k: TypeId) -> Seq<TypeId> {
    if old_kinds.contains(k) {
        old_kinds
    } else {
        old_kinds.push(k)
    }
}

/// The cells after offering a builder cell `c` of kind `k`.
pub open spec fn offered_cells(
    old_kinds: Seq<TypeId>,
    old_cells: Seq<ComponentCell>,
    k: TypeId,
    c: ComponentCell,
) -> Seq<ComponentCell> {
    if old_kinds.contains(k) {
        old_cells
    } else {
        old_cells.push(c)
    }
}

/// Collects components for a new entity; the first component of each type wins.
pub struct EntityBuilder {
    slots: Vec<ComponentSlot>,
}

impl EntityBuilder {
    #[verifier::type_invariant]
    spec fn inv(self) -> bool {
        unique_kinds(kinds_of(self.slots@))
    }

    /// Kinds of the collected components, in the order they were offered.
    pub closed spec fn kinds(&self) -> Seq<TypeId> {
        kinds_of(self.slots@)
    }

    /// The collected components, in the same order as `kinds`.
    pub closed spec fn cells(&self) -> Seq<ComponentCell> {
        cells_of(self.slots@)
    }

    /// A builder without components.
    pub fn new() -> (r: EntityBuilder)
        ensures
            r.kinds() == Seq::<TypeId>::empty(),
            r.cells() == Seq::<ComponentCell>::empty(),
    {
        let b = EntityBuilder { slots: Vec::new() };
        assert(b.kinds() =~= Seq::<TypeId>::empty());
        assert(b.cells() =~= Seq::<ComponentCell>::empty());
        b
    }

    /// Keeps `slot` unless a component of its kind was collected before.
    fn offer(self, slot: ComponentSlot) -> (r: EntityBuilder)
        ensures
            r.kinds() == offered(self.kinds(), slot.kind),
            r.cells() == if self.kinds().contains(slot.kind) {
                self.cells()
            } else {
                self.cells().push(slot.cell)
            },
    {
        proof {
            use_type_invariant(&self);
        }
        match find_kind(&self.slots, &slot.kind) {
            Some(_) => {
                proof {
                    lemma_first_index(self.kinds(), slot.kind);
                }
                self
            },
            None => {
                proof {
                    lemma_first_index(self.kinds(), slot.kind);
                    lemma_slots_push(self.slots@, slot);
                    lemma_unique_push(self.kinds(), slot.kind);
                }
                let mut slots = self.slots;
                slots.push(slot);
                EntityBuilder { slots }
            },
        }
    }

    /// Adds a new component of type `T`, on which `awawa` is called, unless
    /// one was added before; no `T` is made then.
    pub fn add_component<T>(self) -> (r: EntityBuilder) where T: 'static + Component
        ensures
            exists|k: TypeId, c: ComponentCell|
                r.kinds() == offered(self.kinds(), k) && r.cells() == #[trigger] offered_cells(
                    self.kinds(),
                    self.cells(),
                    k,
                    c,
                ),
    {
        let key = type_key::<T>();
        proof {
            use_type_invariant(&self);
        }
        match find_kind(&self.slots, &key) {
            Some(_) => {
                proof {
                    lemma_first_index(self.kinds(), key);
                }
                let ghost c = vstd::pervasive::arbitrary::<ComponentCell>();
                assert(self.kinds() == offered(self.kinds(), key));
                assert(self.cells() == offered_cells(self.kinds(), self.cells(), key, c));
                self
            },
            None => {
                let mut component = T::mew();
                component.awawa();
                let slot = ComponentSlot { kind: key, cell: ComponentCell::new(component) };
                let ghost before = self;
                let r = self.offer(slot);
                assert(r.cells() == offered_cells(before.kinds(), before.cells(), key, slot.cell));
                r
            },
        }
    }

    /// Adds an existing component unless one of its type was added before.
    pub fn add_existing_component<T: Component + 'static>(self, component: Box<T>) -> (r: EntityBuilder)
        ensures
            exists|k: TypeId, c: ComponentCell|
                r.kinds() == offered(self.kinds(), k) && r.cells() == #[trigger] offered_cells(
                    self.kinds(),
                    self.cells(),
                    k,
                    c,
                ),
    {
        let key = type_key::<T>();
        let slot = ComponentSlot { kind: key, cell: ComponentCell::new(*component) };
        let ghost before = self;
        let r = self.offer(slot);
        assert(r.cells() == offered_cells(before.kinds(), before.cells(), key, slot.cell));
        r
    }

    /// Creates a component with `f` and adds it unless one of its type was added before.
    pub fn create_component<T: Component + 'static, F: FnOnce() -> Box<T>>(self, f: F) -> (r: EntityBuilder)
        requires
            f.requires(()),
        ensures
            exists|k: TypeId, c: ComponentCell|
                r.kinds() == offered(self.kinds(), k) && r.cells() == #[trigger] offered_cells(
                    self.kinds(),
                    self.cells(),
                    k,
                    c,
                ),
    {
        let c = f();
        let key = type_key::<T>();
        let slot = ComponentSlot { kind: key, cell: ComponentCell::new(*c) };
        let ghost before = self;
        let r = self.offer(slot);
        assert(r.cells() == offered_cells(before.kinds(), before.cells(), key, slot.cell));
        r
    }

    /// Creates the entity with a random id and the collected components.
    pub fn create(self) -> (r: Entity)
        ensures
            unique_kinds(r.kinds()),
            r.kinds() == self.kinds(),
            r.cells() == self.cells(),
    {
        proof {
            use_type_invariant(&self);
        }
        Entity::from_parts(random_id(), self.slots)
    }
}

} // verus!
