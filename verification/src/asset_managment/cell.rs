//! Shared, lockable asset cells and the records of calls made on them.
use std::any::Any;
use std::sync::{Arc, RwLock, RwLockReadGuard, RwLockWriteGuard};

use vstd::prelude::*;

use crate::asset_managment::Asset;

verus! {

/// The record of one call made on an asset cell: the cell it was made on and
/// its outcome. Only the cell's own operations make such records.
pub struct AssetCall<R> {
    outcome: R,
    target: Ghost<AssetCell>,
}

impl<R> AssetCall<R> {
    /// The cell the call was made on.
    pub closed spec fn target(&self) -> AssetCell {
        self.target@
    }

    /// The outcome of the call.
    pub closed spec fn result(&self) -> R {
        self.outcome
    }

    /// The outcome of the call.
    pub fn outcome(&self) -> (r: &R)
        ensures
            *r == self.result(),
    {
        &self.outcome
    }
}

/// The cells that a list of calls was made on, in order.
pub open spec fn targets<R>(calls: Seq<AssetCall<R>>) -> Seq<AssetCell> {
    calls.map_values(|c: AssetCall<R>| c.target())
}

/// The outcomes of a list of calls, in order.
pub open spec fn outcomes<R>(calls: Seq<AssetCall<R>>) -> Seq<R> {
    calls.map_values(|c: AssetCall<R>| c.result())
}

/// A shared, type-erased, lockable asset.
///
/// Holds the asset twice: as a `dyn Asset` for initialization and disposal and
/// as a `dyn Any` for typed access; both handles point at the same allocation.
/// The fields are hidden from verification; every operation on a cell is a
/// trusted function of this module.
#[verifier::external_body]
pub struct AssetCell {
    object: Arc<RwLock<dyn Asset>>,
    any: Arc<dyn Any + Send + Sync>,
}

impl AssetCell {
    /// Moves `value` into a new cell (`Arc::new`, `RwLock::new`).
    #[verifier::external_body]
    pub(crate) fn new<T: Asset + 'static>(value: T) -> AssetCell {
        let shared: Arc<RwLock<T>> = Arc::new(RwLock::new(value));
        let object: Arc<RwLock<dyn Asset>> = shared.clone();
        AssetCell { object, any: shared }
    }

    /// Another handle to the same asset (`Arc::clone` of both handles).
    ///
    /// Claims that the new handle is the same value as the old one.
    #[verifier::external_body]
    pub(crate) fn share(&self) -> (r: AssetCell)
        ensures
            r == *self,
    {
        AssetCell { object: self.object.clone(), any: self.any.clone() }
    }

    /// Calls `Asset::initialize` through `RwLock::try_write`, and records the
    /// call with its outcome: `None` when the lock is held elsewhere or
    /// poisoned, else what `initialize` returned. Claims that the record names
    /// this cell; the outcome is not stated.
    #[verifier::external_body]
    pub(crate) fn initialize(&self) -> (r: AssetCall<Option<Result<(), String>>>)
        ensures
            r.target() == *self,
    {
        let outcome = match self.object.try_write() {
            Ok(mut a) => Some(a.initialize()),
            Err(_) => None,
        };
        AssetCall { outcome, target: Ghost(*self) }
    }

    /// Calls `Asset::dispose` through `RwLock::try_write`, and records the
    /// call with whether the lock was taken, that is, whether the asset was
    /// disposed. Claims that the record names this cell; the outcome is not
    /// stated.
    #[verifier::external_body]
    pub(crate) fn dispose(&self) -> (r: AssetCall<bool>)
        ensures
            r.target() == *self,
    {
        let outcome = match self.object.try_write() {
            Ok(mut a) => {
                a.dispose();
                true
            },
            Err(_) => false,
        };
        AssetCall { outcome, target: Ghost(*self) }
    }

    /// Shared borrow of the asset as a `T` (`downcast_ref`, `RwLock::try_read`):
    /// `None` when the asset is not a `T`, or its lock is write-locked or
    /// poisoned. Nothing is stated of the result.
    #[verifier::external_body]
    pub(crate) fn read_as<T: 'static>(&self) -> Option<RwLockReadGuard<'_, T>> {
        self.any.downcast_ref::<RwLock<T>>()?.try_read().ok()
    }

    /// Exclusive borrow of the asset as a `T` (`downcast_ref`,
    /// `RwLock::try_write`): `None` when the asset is not a `T`, or its lock is
    /// held elsewhere or poisoned. Nothing is stated of the result.
    #[verifier::external_body]
    pub(crate) fn write_as<T: 'static>(&self) -> Option<RwLockWriteGuard<'_, T>> {
        self.any.downcast_ref::<RwLock<T>>()?.try_write().ok()
    }
}

} // verus!
