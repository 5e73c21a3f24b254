use std::any::TypeId;

use vstd::prelude::*;

use crate::ecs::entity::{
    add_outcome, first_index, lemma_first_index, lemma_unique_push, lemma_unique_remove, offered,
    remove_outcome, unique_kinds, ComponentError, Entity,
};
use crate::ecs::component::ComponentCell;
use crate::ecs::entity::UUID;
use crate::ecs::world::{first_with_id, lemma_first_with_id, scan};

verus! {

/// After a component of kind `k` was added, the entity has a component of kind `k`.
pub proof fn law_add_then_has(before: Seq<TypeId>, after: Seq<TypeId>, k: TypeId, r: Result<(), ComponentError>)
    requires
        add_outcome(before, after, k, r),
    ensures
        after.contains(k),
{
    if !before.contains(k) {
        assert(after[after.len() - 1] == k);
    }
}

/// Adding a kind the entity already has fails and changes nothing.
pub proof fn law_add_twice(
    s0: Seq<TypeId>,
    s1: Seq<TypeId>,
    s2: Seq<TypeId>,
    k: TypeId,
    r1: Result<(), ComponentError>,
    r2: Result<(), ComponentError>,
)
    requires
        add_outcome(s0, s1, k, r1),
        add_outcome(s1, s2, k, r2),
    ensures
        r2 == Err::<(), ComponentError>(ComponentError::ComponentAlreadyExists),
        s2 == s1,
{
    law_add_then_has(s0, s1, k, r1);
}

/// Removing a component that was just added succeeds and restores the kinds.
pub proof fn law_add_remove_roundtrip(
    s0: Seq<TypeId>,
    s1: Seq<TypeId>,
    s2: Seq<TypeId>,
    k: TypeId,
    r2: Result<(), ComponentError>,
)
    requires
        add_outcome(s0, s1, k, Ok(())),
        remove_outcome(s1, s2, k, r2),
    ensures
        r2 == Ok::<(), ComponentError>(()),
        s2 == s0,
{
    lemma_first_index(s1, k);
    assert(!s0.contains(k));
    assert(s1 == s0.push(k));
    match first_index(s1, k) {
        Some(i) => {
            if i < s0.len() {
                assert(s0[i] == s1[i]);
            }
            assert(i == s0.len());
            assert(s1.remove(i) =~= s0);
        },
        None => {
            assert(s1[s1.len() - 1] == k);
        },
    }
}

/// Removing a component that was just added gives back the components the
/// entity held before, in their order.
pub proof fn law_add_remove_restores_cells(
    kinds0: Seq<TypeId>,
    kinds1: Seq<TypeId>,
    cells0: Seq<ComponentCell>,
    cells1: Seq<ComponentCell>,
    k: TypeId,
    c: ComponentCell,
)
    requires
        add_outcome(kinds0, kinds1, k, Ok(())),
        cells0.len() == kinds0.len(),
        cells1 == cells0.push(c),
    ensures
        first_index(kinds1, k) == Some(kinds0.len() as int),
        cells1.remove(first_index(kinds1, k)->0) == cells0,
{
    lemma_first_index(kinds1, k);
    assert(!kinds0.contains(k));
    match first_index(kinds1, k) {
        Some(i) => {
            if i < kinds0.len() {
                assert(kinds0[i] == kinds1[i]);
            }
        },
        None => {
            assert(kinds1[kinds1.len() - 1] == k);
        },
    }
    assert(cells1.remove(kinds0.len() as int) =~= cells0);
}

/// After a removal the entity has no component of the removed kind, provided
/// no kind occurred twice before.
pub proof fn law_remove_then_lacks(
    before: Seq<TypeId>,
    after: Seq<TypeId>,
    k: TypeId,
    r: Result<(), ComponentError>,
)
    requires
        unique_kinds(before),
        remove_outcome(before, after, k, r),
    ensures
        !after.contains(k),
        unique_kinds(after),
{
    lemma_first_index(before, k);
    match first_index(before, k) {
        Some(i) => {
            lemma_unique_remove(before, i);
            if after.contains(k) {
                let w = choose|w: int| 0 <= w < after.len() && after[w] == k;
                let w2 = if w < i { w } else { w + 1 };
                assert(before[w2] == k);
            }
        },
        None => {},
    }
}

/// Adding keeps every kind unique.
pub proof fn law_add_keeps_unique(
    before: Seq<TypeId>,
    after: Seq<TypeId>,
    k: TypeId,
    r: Result<(), ComponentError>,
)
    requires
        unique_kinds(before),
        add_outcome(before, after, k, r),
    ensures
        unique_kinds(after),
{
    if !before.contains(k) {
        lemma_unique_push(before, k);
    }
}

/// A builder keeps the first component offered of each kind: offering a kind
/// again changes nothing, and the kinds stay unique.
pub proof fn law_builder_first_wins(before: Seq<TypeId>, k: TypeId)
    requires
        unique_kinds(before),
    ensures
        offered(offered(before, k), k) == offered(before, k),
        unique_kinds(offered(before, k)),
        offered(before, k).contains(k),
{
    if !before.contains(k) {
        lemma_unique_push(before, k);
        assert(before.push(k)[before.len() as int] == k);
    }
}

/// A new entity that holds kind `k` appends its position to the answer for `k`;
/// one that does not leaves the answer as it was.
pub proof fn law_scan_push(es: Seq<Entity>, e: Entity, k: TypeId)
    ensures
        scan(es.push(e), k) == if e.kinds().contains(k) {
            scan(es, k).push(es.len() as usize)
        } else {
            scan(es, k)
        },
{
    assert(es.push(e).drop_last() =~= es);
}

/// Taking kind `k` away from one entity shortens the answer for `k` by one.
pub proof fn law_scan_drop_one(es: Seq<Entity>, i: int, e: Entity, k: TypeId)
    requires
        0 <= i < es.len(),
        es[i].kinds().contains(k),
        !e.kinds().contains(k),
    ensures
        scan(es.update(i, e), k).len() + 1 == scan(es, k).len(),
    decreases es.len(),
{
    let n = es.update(i, e);
    if i == es.len() - 1 {
        assert(n.drop_last() =~= es.drop_last());
    } else {
        law_scan_drop_one(es.drop_last(), i, e, k);
        assert(n.drop_last() =~= es.drop_last().update(i, e));
        assert(n.last() == es.last());
    }
}

/// A lookup of the id of an entity that was just added finds that entity,
/// unless an entity added earlier has the same id, which is then found.
pub proof fn law_add_then_get(es: Seq<Entity>, e: Entity)
    ensures
        first_with_id(es.push(e), e.id()) == match first_with_id(es, e.id()) {
            Some(i) => Some(i),
            None => Some(es.len() as int),
        },
{
    assert(es.push(e).drop_last() =~= es);
}

/// Adding an entity leaves the lookup of every other id as it was.
pub proof fn law_add_keeps_others(es: Seq<Entity>, e: Entity, id: UUID)
    requires
        id != e.id(),
    ensures
        first_with_id(es.push(e), id) == first_with_id(es, id),
{
    assert(es.push(e).drop_last() =~= es);
}

/// After the entity with an id is removed, a lookup of that id finds nothing,
/// provided no two entities shared it.
pub proof fn law_remove_then_absent(es: Seq<Entity>, id: UUID)
    requires
        forall|i: int, j: int|
            0 <= i < es.len() && 0 <= j < es.len() && i != j && #[trigger] es[i].id() == id
                ==> #[trigger] es[j].id() != id,
        first_with_id(es, id) is Some,
    ensures
        first_with_id(es.remove(first_with_id(es, id)->0), id) is None,
{
    lemma_first_with_id(es, id);
    let i = first_with_id(es, id)->0;
    let rest = es.remove(i);
    lemma_first_with_id(rest, id);
    assert forall|j: int| 0 <= j < rest.len() implies rest[j].id() != id by {
        let j2 = if j < i { j } else { j + 1 };
        assert(rest[j] == es[j2]);
        assert(es[i].id() == id);
    }
}

} // verus!
