//! The system for managing assets such as textures, meshes and materials.
//!
//! Each asset has a unique id by which it may be queried from the asset store.
//! Each asset has an initialization function and a disposal function.
use std::any::{Any, TypeId};
use std::marker::PhantomData;
use std::sync::{Arc, RwLock, RwLockReadGuard, RwLockWriteGuard};

use rand::Rng;
use vec_key_value_pair::map::VecMap;
use vstd::prelude::*;
use vstd::string::*;

pub mod cell;

pub use cell::AssetCall;

use crate::ecs::component::{same_kind, type_key};
use cell::{outcomes, targets, AssetCell};
use crate::vecmap::{
    first_key, index_entries, lemma_same_keys, index_get, index_insert, index_new, index_pairs, last_key,
    lemma_keys, unique_keys, without_last_key,
};

verus! {

/// `std::sync::RwLockReadGuard`, a shared borrow of an asset.
#[verifier::external_type_specification]
#[verifier::external_body]
#[verifier::reject_recursive_types(T)]
pub struct ExRwLockReadGuard<'a, T: ?Sized>(RwLockReadGuard<'a, T>);

/// `std::sync::RwLockWriteGuard`, an exclusive borrow of an asset.
#[verifier::external_type_specification]
#[verifier::external_body]
#[verifier::reject_recursive_types(T)]
pub struct ExRwLockWriteGuard<'a, T: ?Sized + 'a>(RwLockWriteGuard<'a, T>);

/// Whether a material's bind groups were created.
#[derive(Clone, Copy, Debug, PartialEq, Eq, Structural)]
pub enum BindgroupState {
    /// Not created yet.
    Uninitialized,
    /// Created.
    Initialized,
}

/// Type the management system uses for asset ids.
pub type UUID = u128;

/// Why an asset operation was refused.
#[derive(Debug, PartialEq, Eq, Structural)]
pub enum Error {
    /// The asset already has an id.
    IdAlreadySet,
    /// No asset with the requested id or type is in the store.
    DoesNotExist,
}

/// Trait all assets must implement.
///
/// All the heavy initialization work must be performed in `initialize`; both
/// `initialize` and `dispose` must be callable repeatedly in sequence. The id
/// must not be set before the asset is registered.
pub trait Asset: Send + Sync {
    /// Returns the id of the asset.
    fn get_id(&self) -> UUID;
    /// Performs initialization of the asset; the error describes what failed.
    fn initialize(&mut self) -> Result<(), String>;
    /// Disposes of all the resources used by the asset.
    fn dispose(&mut self);
    /// Sets the id of the asset; may only be called once.
    fn set_id(&mut self, id: UUID) -> Result<(), Error>;
}

/// Sets an asset's id unless one was set before: the rule the engine's assets
/// follow in `Asset::set_id`.
///
/// # Errors
///
/// Returns `IdAlreadySet`, leaving the id as it was, when an id was set before.
pub fn set_id_once(slot: &mut Option<UUID>, id: UUID) -> (r: Result<(), Error>)
    ensures
        *old(slot) is Some ==> r == Err::<(), Error>(Error::IdAlreadySet) && *final(slot) == *old(slot),
        *old(slot) is None ==> r == Ok::<(), Error>(()) && *final(slot) == Some(id),
{
    if slot.is_some() {
        Err(Error::IdAlreadySet)
    } else {
        *slot = Some(id);
        Ok(())
    }
}

/// A fresh random asset id (`rand::thread_rng().gen::<u128>()`); nothing is
/// stated of its value.
#[verifier::external_body]
fn random_asset_id() -> u128 {
    rand::thread_rng().gen::<u128>()
}

/// Reference to an asset inside [`AssetStore`].
pub struct AssetReference<T: 'static> {
    cell: AssetCell,
    phantom: PhantomData<T>,
}

impl<T: 'static> AssetReference<T> {
    /// The referenced asset.
    pub closed spec fn cell(&self) -> AssetCell {
        self.cell
    }

    /// Borrows the asset: `None`, in place of a panic or of waiting, when it is
    /// not a `T`, or its lock is write-locked or poisoned.
    pub fn borrow(&self) -> Option<RwLockReadGuard<'_, T>> {
        self.cell.read_as::<T>()
    }

    /// Borrows the asset mutably: `None`, in place of a panic or of waiting,
    /// when it is not a `T`, or its lock is held elsewhere or poisoned.
    pub fn borrow_mut(&self) -> Option<RwLockWriteGuard<'_, T>> {
        self.cell.write_as::<T>()
    }
}

/// A registered asset and the key of its type.
pub struct AssetSlot {
    pub kind: TypeId,
    pub cell: AssetCell,
}

/// Position of the first entry of kind `k`.
pub open spec fn first_of_kind(s: Seq<(UUID, (TypeId, AssetCell))>, k: TypeId) -> Option<int>
    decreases s.len(),
{
    if s.len() == 0 {
        None
    } else {
        match first_of_kind(s.drop_last(), k) {
            Some(i) => Some(i),
            None => if s.last().1.0 == k { Some((s.len() - 1) as int) } else { None },
        }
    }
}

pub proof fn lemma_first_of_kind(s: Seq<(UUID, (TypeId, AssetCell))>, k: TypeId)
    ensures
        match first_of_kind(s, k) {
            Some(i) => 0 <= i < s.len() && s[i].1.0 == k && forall|j: int| 0 <= j < i ==> s[j].1.0 != k,
            None => forall|j: int| 0 <= j < s.len() ==> s[j].1.0 != k,
        },
    decreases s.len(),
{
    if s.len() > 0 {
        let p = s.drop_last();
        lemma_first_of_kind(p, k);
        assert forall|j: int| 0 <= j < p.len() implies p[j] == s[j] by {}
    }
}

/// The answer of a query for the first asset of kind `k`.
pub open spec fn kind_answer<T>(
    entries: Seq<(UUID, (TypeId, AssetCell))>,
    k: TypeId,
    r: Result<AssetReference<T>, Error>,
) -> bool {
    match first_of_kind(entries, k) {
        Some(i) => r matches Ok(a) && a.cell() == entries[i].1.1,
        None => r == Err::<AssetReference<T>, Error>(Error::DoesNotExist),
    }
}

/// Why the initialization of the assets failed.
#[derive(Debug)]
pub enum InitFailure {
    /// An asset's lock was held elsewhere or poisoned, so it was not initialized.
    Locked,
    /// An asset's initialization failed with this message.
    Failed(String),
}

/// The first failure among the outcomes of an initialization pass, or success
/// when there is none; a missing outcome is a locked asset.
pub open spec fn first_failure_of(s: Seq<Option<Result<(), String>>>) -> Result<(), InitFailure>
    decreases s.len(),
{
    if s.len() == 0 {
        Ok(())
    } else {
        match s[0] {
            None => Err(InitFailure::Locked),
            Some(Err(e)) => Err(InitFailure::Failed(e)),
            Some(Ok(())) => first_failure_of(s.drop_first()),
        }
    }
}

/// The first failure of an initialization pass, in the order of the store.
pub fn first_failure(calls: &Vec<AssetCall<Option<Result<(), String>>>>) -> (r: Result<(), InitFailure>)
    ensures
        r == first_failure_of(outcomes(calls@)),
{
    let ghost os = outcomes(calls@);
    let mut i: usize = 0;
    assert(os.skip(0) =~= os);
    while i < calls.len()
        invariant
            0 <= i <= calls@.len(),
            os == outcomes(calls@),
            first_failure_of(os) == first_failure_of(os.skip(i as int)),
        decreases calls@.len() - i,
    {
        assert(os.skip(i as int).drop_first() =~= os.skip(i + 1));
        assert(os.skip(i as int)[0] == calls@[i as int].result());
        match calls[i].outcome() {
            None => {
                return Err(InitFailure::Locked);
            },
            Some(Err(e)) => {
                return Err(InitFailure::Failed(e.clone()));
            },
            Some(Ok(())) => {},
        }
        i = i + 1;
    }
    assert(os.skip(i as int) =~= Seq::<Option<Result<(), String>>>::empty());
    Ok(())
}

/// The assets of a list of entries, in order.
pub open spec fn entry_cells(es: Seq<(UUID, (TypeId, AssetCell))>) -> Seq<AssetCell> {
    es.map_values(|e: (UUID, (TypeId, AssetCell))| e.1.1)
}

/// Asset manager: initialization, borrowing and disposal of assets.
pub struct AssetStore {
    index: VecMap<UUID, usize>,
    slots: Vec<AssetSlot>,
}

impl AssetStore {
    /// The registered assets in the order of the store: id, type key, asset.
    pub closed spec fn entries(&self) -> Seq<(UUID, (TypeId, AssetCell))> {
        index_pairs(self.index).map_values(
            |p: (UUID, usize)| (p.0, (self.slots@[p.1 as int].kind, self.slots@[p.1 as int].cell)),
        )
    }

    /// Ids are unique and every entry points at a registered asset.
    pub closed spec fn wf(&self) -> bool {
        &&& unique_keys(index_pairs(self.index))
        &&& forall|j: int|
            0 <= j < index_pairs(self.index).len() ==> (#[trigger] index_pairs(self.index)[j]).1
                < self.slots@.len()
    }

    /// Ids are unique in a well-formed store.
    pub proof fn lemma_entries_unique(&self)
        requires
            self.wf(),
        ensures
            unique_keys(self.entries()),
    {
        lemma_same_keys(index_pairs(self.index), self.entries(), 0);
    }

    /// Creates a new asset store.
    pub fn new() -> (r: AssetStore)
        ensures
            r.wf(),
            r.entries() == Seq::<(UUID, (TypeId, AssetCell))>::empty(),
    {
        let s = AssetStore { index: index_new(), slots: Vec::new() };
        assert(s.entries() =~= Seq::<(UUID, (TypeId, AssetCell))>::empty());
        s
    }

    /// Registers a new asset in the store under a fresh random id.
    ///
    /// # Errors
    ///
    /// Returns the error of `Asset::set_id` (the asset already had an id); the
    /// store is then unchanged.
    pub fn register<T>(&mut self, asset: T) -> (r: Result<UUID, Error>) where T: Asset + 'static
        requires
            old(self).wf(),
        ensures
            final(self).wf(),
            match r {
                Ok(id) => final(self).entries().len() > 0
                    && final(self).entries().drop_last() == without_last_key(old(self).entries(), id)
                    && final(self).entries().last().0 == id,
                Err(_) => final(self).entries() == old(self).entries(),
            },
    {
        let id = random_asset_id();
        let mut asset = asset;
        let outcome = asset.set_id(id);
        self.store_registered(asset, id, outcome)
    }

    /// What `register` does once `Asset::set_id(id)` returned `outcome`: on
    /// success the asset is stored under `id` (replacing an asset stored under
    /// the same id before) and `id` is returned; on failure the store is
    /// unchanged and the error is returned.
    pub fn store_registered<T>(&mut self, asset: T, id: UUID, outcome: Result<(), Error>) -> (r: Result<UUID, Error>) where
        T: Asset + 'static,
        requires
            old(self).wf(),
        ensures
            final(self).wf(),
            match outcome {
                Ok(()) => r == Ok::<UUID, Error>(id) && final(self).entries().len() > 0
                    && final(self).entries().drop_last() == without_last_key(old(self).entries(), id)
                    && final(self).entries().last().0 == id,
                Err(e) => r == Err::<UUID, Error>(e) && final(self).entries() == old(self).entries(),
            },
    {
        match outcome {
            Ok(()) => {},
            Err(e) => {
                return Err(e);
            },
        }
        let ghost old_entries = self.entries();
        let ghost old_pairs = index_pairs(self.index);
        let ghost old_slots = self.slots@;
        let slot = AssetSlot { kind: type_key::<T>(), cell: AssetCell::new(asset) };
        self.slots.push(slot);
        let position = self.slots.len() - 1;
        index_insert(&mut self.index, id, position);
        proof {
            let pairs = index_pairs(self.index);
            lemma_same_keys(old_pairs, old_entries, id);
            lemma_keys(old_pairs, id);
            let kept = without_last_key(old_pairs, id);
            assert(pairs == kept.push((id, position)));
            assert forall|j: int| 0 <= j < kept.len() implies (#[trigger] kept[j]).1 < old_slots.len() by {
                match last_key(old_pairs, id) {
                    Some(x) => {
                        let j2 = if j < x { j } else { j + 1 };
                        assert(kept[j] == old_pairs[j2]);
                    },
                    None => {},
                }
            }
            assert forall|a: int, b: int| 0 <= a < pairs.len() && 0 <= b < pairs.len() && a != b
                implies pairs[a].0 != pairs[b].0 by {
                match last_key(old_pairs, id) {
                    Some(x) => {
                        let a2 = if a < x { a } else { a + 1 };
                        let b2 = if b < x { b } else { b + 1 };
                        if a < kept.len() && b < kept.len() {
                            assert(kept[a] == old_pairs[a2]);
                            assert(kept[b] == old_pairs[b2]);
                        } else if a < kept.len() {
                            assert(kept[a] == old_pairs[a2]);
                            assert(old_pairs[x].0 == id);
                        } else {
                            assert(kept[b] == old_pairs[b2]);
                            assert(old_pairs[x].0 == id);
                        }
                    },
                    None => {
                        if a < kept.len() {
                            assert(kept[a] == old_pairs[a]);
                        }
                        if b < kept.len() {
                            assert(kept[b] == old_pairs[b]);
                        }
                    },
                }
            }
            assert forall|j: int| 0 <= j < pairs.len() implies (#[trigger] pairs[j]).1 < self.slots@.len() by {
                if j < kept.len() {
                    assert(pairs[j] == kept[j]);
                }
            }
            let ne = self.entries();
            let ke = without_last_key(old_entries, id);
            assert(ne.drop_last() =~= ke) by {
                match last_key(old_pairs, id) {
                    Some(x) => {
                        assert forall|j: int| 0 <= j < ke.len() implies ne.drop_last()[j] == ke[j] by {
                            let j2 = if j < x { j } else { j + 1 };
                            assert(kept[j] == old_pairs[j2]);
                            assert(old_pairs[j2].1 < old_slots.len());
                            assert(self.slots@[old_pairs[j2].1 as int] == old_slots[old_pairs[j2].1 as int]);
                        }
                    },
                    None => {
                        assert forall|j: int| 0 <= j < ke.len() implies ne.drop_last()[j] == ke[j] by {
                            assert(old_pairs[j].1 < old_slots.len());
                            assert(self.slots@[old_pairs[j].1 as int] == old_slots[old_pairs[j].1 as int]);
                        }
                    },
                }
            }
        }
        Ok(id)
    }

    /// Returns the reference to the asset with the given id.
    ///
    /// # Errors
    ///
    /// Returns `DoesNotExist` when no asset has the id.
    pub fn get_by_id<T: Asset + 'static>(&self, id: UUID) -> (r: Result<AssetReference<T>, Error>)
        requires
            self.wf(),
        ensures
            match first_key(self.entries(), id) {
                Some(i) => r matches Ok(a) && a.cell() == self.entries()[i].1.1,
                None => r == Err::<AssetReference<T>, Error>(Error::DoesNotExist),
            },
    {
        proof {
            lemma_same_keys(index_pairs(self.index), self.entries(), id);
            lemma_keys(index_pairs(self.index), id);
        }
        match index_get(&self.index, id) {
            Some(j) => Ok(AssetReference { cell: self.slots[j].cell.share(), phantom: PhantomData }),
            None => Err(Error::DoesNotExist),
        }
    }

    /// Returns the first asset, in the order of the store, whose type has the given key.
    pub fn get_by_kind<T: Asset + 'static>(&self, kind: &TypeId) -> (r: Result<AssetReference<T>, Error>)
        requires
            self.wf(),
        ensures
            match first_of_kind(self.entries(), *kind) {
                Some(i) => r matches Ok(a) && a.cell() == self.entries()[i].1.1,
                None => r == Err::<AssetReference<T>, Error>(Error::DoesNotExist),
            },
    {
        let entries = index_entries(&self.index);
        proof {
            lemma_first_of_kind(self.entries(), *kind);
        }
        let mut j: usize = 0;
        while j < entries.len()
            invariant
                0 <= j <= entries@.len(),
                entries@ == index_pairs(self.index),
                self.wf(),
                forall|m: int| 0 <= m < j ==> self.entries()[m].1.0 != *kind,
            decreases entries@.len() - j,
        {
            let (_, position) = entries[j];
            assert(index_pairs(self.index)[j as int].1 < self.slots@.len());
            if same_kind(&self.slots[position].kind, kind) {
                proof {
                    lemma_first_of_kind(self.entries(), *kind);
                    assert(self.entries()[j as int].1.0 == *kind);
                }
                return Ok(AssetReference { cell: self.slots[position].cell.share(), phantom: PhantomData });
            }
            j = j + 1;
        }
        Err(Error::DoesNotExist)
    }

    /// Returns the first asset of type T.
    pub fn get_by_type<T: Asset + 'static>(&self) -> (r: Result<AssetReference<T>, Error>)
        requires
            self.wf(),
        ensures
            exists|k: TypeId| #[trigger] kind_answer(self.entries(), k, r),
    {
        let key = type_key::<T>();
        let r = self.get_by_kind(&key);
        assert(kind_answer(self.entries(), key, r));
        r
    }

    /// Disposes of the asset with the given id; `Ok` holds the record of the
    /// call, which shows whether the asset's lock could be taken.
    ///
    /// # Errors
    ///
    /// Returns `DoesNotExist` when no asset has the id.
    pub fn dispose_by_id(&self, id: UUID) -> (r: Result<AssetCall<bool>, Error>)
        requires
            self.wf(),
        ensures
            match first_key(self.entries(), id) {
                Some(i) => r matches Ok(call) && call.target() == self.entries()[i].1.1,
                None => r is Err && r->Err_0 == Error::DoesNotExist,
            },
    {
        proof {
            lemma_same_keys(index_pairs(self.index), self.entries(), id);
            lemma_keys(index_pairs(self.index), id);
        }
        match index_get(&self.index, id) {
            Some(j) => Ok(self.slots[j].cell.dispose()),
            None => Err(Error::DoesNotExist),
        }
    }

    /// Disposes of all assets, in the order of the store, and returns the
    /// record of each call; an asset whose lock is held elsewhere or poisoned
    /// is skipped, which its record shows.
    pub fn dispose_all(&self) -> (r: Vec<AssetCall<bool>>)
        requires
            self.wf(),
        ensures
            targets(r@) == entry_cells(self.entries()),
    {
        let mut calls: Vec<AssetCall<bool>> = Vec::new();
        let entries = index_entries(&self.index);
        let mut j: usize = 0;
        while j < entries.len()
            invariant
                0 <= j <= entries@.len(),
                entries@ == index_pairs(self.index),
                self.wf(),
                targets(calls@) == entry_cells(self.entries()).take(j as int),
            decreases entries@.len() - j,
        {
            let (_, position) = entries[j];
            assert(index_pairs(self.index)[j as int].1 < self.slots@.len());
            let call = self.slots[position].cell.dispose();
            let ghost before = calls@;
            calls.push(call);
            proof {
                assert(targets(calls@) =~= targets(before).push(call.target()));
                assert(entry_cells(self.entries()).take(j + 1) =~= entry_cells(self.entries()).take(
                    j as int,
                ).push(self.entries()[j as int].1.1));
            }
            j = j + 1;
        }
        assert(entry_cells(self.entries()).take(j as int) =~= entry_cells(self.entries()));
        calls
    }

    /// Initializes every asset, in the order of the store, and returns the
    /// record of each call; an asset whose lock is held elsewhere or poisoned
    /// is not initialized, which its record shows. `first_failure` reports
    /// the first failure among the records.
    pub fn intialize_all(&mut self) -> (r: Vec<AssetCall<Option<Result<(), String>>>>)
        requires
            old(self).wf(),
        ensures
            final(self).wf(),
            final(self).entries() == old(self).entries(),
            targets(r@) == entry_cells(old(self).entries()),
    {
        let mut calls: Vec<AssetCall<Option<Result<(), String>>>> = Vec::new();
        let entries = index_entries(&self.index);
        let mut j: usize = 0;
        while j < entries.len()
            invariant
                0 <= j <= entries@.len(),
                entries@ == index_pairs(self.index),
                self.wf(),
                targets(calls@) == entry_cells(self.entries()).take(j as int),
            decreases entries@.len() - j,
        {
            let (_, position) = entries[j];
            assert(index_pairs(self.index)[j as int].1 < self.slots@.len());
            let call = self.slots[position].cell.initialize();
            let ghost before = calls@;
            calls.push(call);
            proof {
                assert(targets(calls@) =~= targets(before).push(call.target()));
                assert(entry_cells(self.entries()).take(j + 1) =~= entry_cells(self.entries()).take(
                    j as int,
                ).push(self.entries()[j as int].1.1));
            }
            j = j + 1;
        }
        assert(entry_cells(self.entries()).take(j as int) =~= entry_cells(self.entries()));
        calls
    }
}

/// A freshly registered asset is what a lookup of its id finds, and every
/// other id still finds the asset it found before.
pub proof fn law_register_then_get(
    before: Seq<(UUID, (TypeId, AssetCell))>,
    after: Seq<(UUID, (TypeId, AssetCell))>,
    id: UUID,
    other: UUID,
)
    requires
        unique_keys(before),
        after.len() > 0,
        after.drop_last() == without_last_key(before, id),
        after.last().0 == id,
    ensures
        first_key(after, id) == Some((after.len() - 1) as int),
        other != id ==> match first_key(before, other) {
            Some(i) => first_key(after, other) matches Some(j) && after[j] == before[i],
            None => first_key(after, other) is None,
        },
{
    lemma_keys(before, id);
    lemma_keys(before, other);
    lemma_keys(after, id);
    lemma_keys(after, other);
    let kept = after.drop_last();
    assert forall|j: int| 0 <= j < kept.len() implies kept[j] == after[j] by {}
    match last_key(before, id) {
        Some(x) => {
            assert(kept == before.remove(x));
            assert forall|j: int| 0 <= j < kept.len() implies kept[j].0 != id by {
                let j2 = if j < x { j } else { j + 1 };
                assert(kept[j] == before[j2]);
                assert(before[x].0 == id);
            }
            if other != id {
                match first_key(before, other) {
                    Some(i) => {
                        assert(i != x);
                        let i2 = if i < x { i } else { i - 1 };
                        assert(kept[i2] == before[i]);
                        assert(after[i2].0 == other);
                        assert(unique_keys(after)) by {
                            assert forall|a: int, b: int| 0 <= a < after.len() && 0 <= b < after.len() && a != b
                                implies after[a].0 != after[b].0 by {
                                if a < kept.len() && b < kept.len() {
                                    let a2 = if a < x { a } else { a + 1 };
                                    let b2 = if b < x { b } else { b + 1 };
                                    assert(kept[a] == before[a2]);
                                    assert(kept[b] == before[b2]);
                                }
                            }
                        }
                        lemma_keys(after, other);
                        match first_key(after, other) {
                            Some(j) => {
                                if j != i2 {
                                    assert(after[j].0 == after[i2].0);
                                }
                            },
                            None => {},
                        }
                    },
                    None => {
                        assert forall|j: int| 0 <= j < after.len() implies after[j].0 != other by {
                            if j < kept.len() {
                                let j2 = if j < x { j } else { j + 1 };
                                assert(kept[j] == before[j2]);
                            }
                        }
                    },
                }
            }
        },
        None => {
            assert(kept == before);
            if other != id {
                match first_key(before, other) {
                    Some(i) => {
                        assert(after[i] == before[i]);
                        assert(unique_keys(after)) by {
                            assert forall|a: int, b: int| 0 <= a < after.len() && 0 <= b < after.len() && a != b
                                implies after[a].0 != after[b].0 by {
                                if a < kept.len() && b < kept.len() {
                                    assert(kept[a] == before[a]);
                                    assert(kept[b] == before[b]);
                                }
                            }
                        }
                        lemma_keys(after, other);
                        match first_key(after, other) {
                            Some(j) => {
                                if j != i {
                                    assert(after[j].0 == after[i].0);
                                }
                            },
                            None => {},
                        }
                    },
                    None => {
                        assert forall|j: int| 0 <= j < after.len() implies after[j].0 != other by {
                            if j < kept.len() {
                                assert(kept[j] == before[j]);
                            }
                        }
                    },
                }
            }
        },
    }
}

/// An id that no registration returned finds nothing: along a run of
/// registrations that starts from an empty store, a lookup of an id other than
/// every registered one finds no asset.
pub proof fn law_unregistered_id_absent(
    stores: Seq<Seq<(UUID, (TypeId, AssetCell))>>,
    ids: Seq<UUID>,
    x: UUID,
)
    requires
        stores.len() == ids.len() + 1,
        stores[0].len() == 0,
        forall|k: int| 0 <= k < stores.len() ==> unique_keys(#[trigger] stores[k]),
        forall|k: int|
            0 <= k < ids.len() ==> {
                &&& (#[trigger] stores[k + 1]).len() > 0
                &&& stores[k + 1].drop_last() == without_last_key(stores[k], ids[k])
                &&& stores[k + 1].last().0 == ids[k]
            },
        !ids.contains(x),
    ensures
        first_key(stores.last(), x) is None,
    decreases ids.len(),
{
    if ids.len() == 0 {
        lemma_keys(stores[0], x);
    } else {
        let n = ids.len() - 1;
        let s2 = stores.drop_last();
        let i2 = ids.drop_last();
        assert forall|k: int| 0 <= k < i2.len() implies {
            &&& (#[trigger] s2[k + 1]).len() > 0
            &&& s2[k + 1].drop_last() == without_last_key(s2[k], i2[k])
            &&& s2[k + 1].last().0 == i2[k]
        } by {
            assert(stores[k + 1].len() > 0);
        }
        assert forall|k: int| 0 <= k < s2.len() implies unique_keys(#[trigger] s2[k]) by {
            assert(unique_keys(stores[k]));
        }
        assert(!i2.contains(x)) by {
            if i2.contains(x) {
                let w = choose|w: int| 0 <= w < i2.len() && i2[w] == x;
                assert(ids[w] == x);
            }
        }
        law_unregistered_id_absent(s2, i2, x);
        assert(stores[n + 1].len() > 0);
        assert(ids[n] != x);
        assert(unique_keys(stores[n]));
        law_register_then_get(stores[n], stores[n + 1], ids[n], x);
    }
}

} // verus!
