use std::any::{Any, TypeId};
use std::cell::{Ref, RefCell, RefMut};
use std::rc::Rc;
use vstd::prelude::*;

verus! {

/// `std::any::TypeId`, the identity of a component's concrete type.
#[verifier::external_type_specification]
#[verifier::external_body]
pub struct ExTypeId(TypeId);

/// `std::cell::Ref`, the guard of a shared borrow of a component.
#[verifier::external_type_specification]
#[verifier::external_body]
#[verifier::reject_recursive_types(T)]
pub struct ExRef<'b, T: ?Sized>(Ref<'b, T>);

/// `std::cell::RefMut`, the guard of a mutable borrow of a component.
#[verifier::external_type_specification]
#[verifier::external_body]
#[verifier::reject_recursive_types(T)]
pub struct ExRefMut<'b, T: ?Sized + 'b>(RefMut<'b, T>);

/// The trait all components that are used within the ECS must implement.
pub trait Component {
    /// Creates a new instance of the component.
    fn mew() -> Self where Self: Sized;

    /// Called every frame.
    fn update(&mut self) {
    }

    /// Called after the component is created.
    fn awawa(&mut self) {
    }

    /// Called upon component deletion.
    fn decatification(&mut self) {
    }

    /// Sets the id of the entity.
    fn set_entity_id(&self, id: u64) {
    }
}

/// Returns the `TypeId` of `T` (calls `std::any::TypeId::of`).
///
/// Nothing is stated of the result: specifications cannot name the identity of
/// a type, so callers treat the key as an arbitrary value and state what holds
/// for whichever key came back.
#[verifier::external_body]
pub(crate) fn type_key<T: ?Sized + 'static>() -> TypeId {
    TypeId::of::<T>()
}

/// Compares two `TypeId`s with `<TypeId as PartialEq>::eq`.
///
/// Claims that the comparison coincides with equality of the two values.
#[verifier::external_body]
pub(crate) fn same_kind(a: &TypeId, b: &TypeId) -> (r: bool)
    ensures
        r == (*a == *b),
{
    *a == *b
}

/// Which callback of a component a call was for.
#[derive(Clone, Copy, Debug, PartialEq, Eq, Structural)]
pub enum Hook {
    /// `Component::update`.
    Update,
    /// `Component::decatification`.
    Decatification,
}

/// The record of one callback made on a component cell: the cell it was made
/// on, which callback it was, and whether the component could be borrowed, so
/// that the callback ran. Only the cell's own operations make such records.
pub struct Called {
    ran: bool,
    hook: Ghost<Hook>,
    target: Ghost<ComponentCell>,
}

impl Called {
    /// Which callback the call was for.
    pub closed spec fn hook(&self) -> Hook {
        self.hook@
    }

    /// The cell the callback was made on.
    pub closed spec fn target(&self) -> ComponentCell {
        self.target@
    }

    /// Whether the callback ran.
    pub closed spec fn did_run(&self) -> bool {
        self.ran
    }

    /// Whether the callback ran.
    pub fn ran(&self) -> (r: bool)
        ensures
            r == self.did_run(),
    {
        self.ran
    }
}

/// Whether every call of a list was for the given callback.
pub open spec fn all_for(calls: Seq<Called>, hook: Hook) -> bool {
    forall|i: int| 0 <= i < calls.len() ==> (#[trigger] calls[i]).hook() == hook
}

/// The cells that a list of callbacks was made on, in order.
pub open spec fn targets(calls: Seq<Called>) -> Seq<ComponentCell> {
    calls.map_values(|c: Called| c.target())
}

/// Whether every callback of a list ran.
pub open spec fn all_ran(calls: Seq<Called>) -> bool {
    forall|i: int| 0 <= i < calls.len() ==> #[trigger] calls[i].did_run()
}

/// Whether every callback of a list ran.
pub fn every_call_ran(calls: &Vec<Called>) -> (r: bool)
    ensures
        r == all_ran(calls@),
{
    let mut i: usize = 0;
    while i < calls.len()
        invariant
            0 <= i <= calls@.len(),
            forall|j: int| 0 <= j < i ==> #[trigger] calls@[j].did_run(),
        decreases calls@.len() - i,
    {
        if !calls[i].ran() {
            return false;
        }
        i = i + 1;
    }
    true
}

/// A shared, type-erased, interior-mutable component.
///
/// Holds the component twice: as a `dyn Component` for the frame callbacks and
/// as a `dyn Any` for typed access. Both handles point at the same allocation.
/// The fields are hidden from verification; every operation on a cell is a
/// trusted function of this module.
#[verifier::external_body]
pub struct ComponentCell {
    object: Rc<RefCell<dyn Component>>,
    any: Rc<dyn Any>,
}

impl ComponentCell {
    /// Moves `value` into a new cell (`Rc::new`, `RefCell::new`).
    #[verifier::external_body]
    pub(crate) fn new<T: Component + 'static>(value: T) -> ComponentCell {
        let shared: Rc<RefCell<T>> = Rc::new(RefCell::new(value));
        let object: Rc<RefCell<dyn Component>> = shared.clone();
        ComponentCell { object, any: shared }
    }

    /// Another handle to the same component (`Rc::clone` of both handles).
    ///
    /// Claims that the new handle is the same value as the old one.
    #[verifier::external_body]
    pub(crate) fn share(&self) -> (r: ComponentCell)
        ensures
            r == *self,
    {
        ComponentCell { object: self.object.clone(), any: self.any.clone() }
    }

    /// Calls `Component::update` on the component through
    /// `RefCell::try_borrow_mut`, and records the call. Claims that the record
    /// names this cell and the update callback; whether the borrow succeeded,
    /// so that the update ran, is not stated: the borrow state of the cell is
    /// not visible to specifications.
    #[verifier::external_body]
    pub(crate) fn update(&self) -> (r: Called)
        ensures
            r.target() == *self,
            r.hook() == Hook::Update,
    {
        let ran = match self.object.try_borrow_mut() {
            Ok(mut c) => {
                c.update();
                true
            },
            Err(_) => false,
        };
        Called { ran, hook: Ghost(Hook::Update), target: Ghost(*self) }
    }

    /// Calls `Component::decatification` on the component through
    /// `RefCell::try_borrow_mut`, and records the call. Claims that the record
    /// names this cell and the decatification callback; whether the callback
    /// ran is not stated.
    #[verifier::external_body]
    pub(crate) fn decatify(&self) -> (r: Called)
        ensures
            r.target() == *self,
            r.hook() == Hook::Decatification,
    {
        let ran = match self.object.try_borrow_mut() {
            Ok(mut c) => {
                c.decatification();
                true
            },
            Err(_) => false,
        };
        Called { ran, hook: Ghost(Hook::Decatification), target: Ghost(*self) }
    }

    /// Shared borrow of the component as a `T` (`downcast_ref`,
    /// `RefCell::try_borrow`): `None` when the component is not a `T` or is
    /// mutably borrowed elsewhere. Nothing is stated of the result.
    #[verifier::external_body]
    pub(crate) fn borrow_as<T: 'static>(&self) -> Option<Ref<'_, T>> {
        self.any.downcast_ref::<RefCell<T>>()?.try_borrow().ok()
    }

    /// Mutable borrow of the component as a `T` (`downcast_ref`,
    /// `RefCell::try_borrow_mut`): `None` when the component is not a `T` or is
    /// borrowed elsewhere. Nothing is stated of the result.
    #[verifier::external_body]
    pub(crate) fn borrow_mut_as<T: 'static>(&self) -> Option<RefMut<'_, T>> {
        self.any.downcast_ref::<RefCell<T>>()?.try_borrow_mut().ok()
    }
}

} // verus!
