use vstd::prelude::*;
use crate::task::TaskMeta;

verus! {

/// Number of slots of the fixed-size task table.
pub const TABLE_SLOTS: usize = 64;

#[verifier::external_type_specification]
#[verifier::external_body]
#[verifier::reject_recursive_types(T)]
pub struct ExHeaplessVec<T, const N: usize>(heapless::Vec<T, N>);

/// The fixed-capacity vector that stores the registry's tasks.
pub type TaskVec = heapless::Vec<TaskMeta, 64>;

/// The tasks held by a table, in order.
pub uninterp spec fn table_items(v: TaskVec) -> Seq<TaskMeta>;

/// Relies on heapless::Vec::new: a new vector is empty.
#[verifier::external_body]
pub(crate) fn table_new() -> (r: TaskVec)
    ensures
        table_items(r) == Seq::<TaskMeta>::empty(),
{
    heapless::Vec::new()
}

/// Relies on heapless::Vec::len (through Deref to a slice): the number of
/// stored items, never above the capacity `N`.
#[verifier::external_body]
pub(crate) fn table_len(v: &TaskVec) -> (r: usize)
    ensures
        r as int == table_items(*v).len(),
        r <= TABLE_SLOTS,
{
    v.len()
}

/// Relies on heapless::Vec::push: appends when below capacity, otherwise
/// leaves the vector as it was. The result tells whether it appended.
#[verifier::external_body]
pub(crate) fn table_push(v: &mut TaskVec, t: TaskMeta) -> (r: bool)
    ensures
        r == (table_items(*old(v)).len() < TABLE_SLOTS),
        r ==> table_items(*final(v)) == table_items(*old(v)).push(t),
        !r ==> table_items(*final(v)) == table_items(*old(v)),
{
    v.push(t).is_ok()
}

/// Relies on heapless::Vec::remove: takes out the item at `i` and shifts
/// the later ones down by one, keeping their order.
#[verifier::external_body]
pub(crate) fn table_remove(v: &mut TaskVec, i: usize) -> (r: TaskMeta)
    requires
        i < table_items(*old(v)).len(),
    ensures
        r == table_items(*old(v))[i as int],
        table_items(*final(v)) == table_items(*old(v)).remove(i as int),
{
    v.remove(i)
}

/// Relies on indexing a heapless::Vec (through Deref to a slice): the item
/// at position `i`.
#[verifier::external_body]
pub(crate) fn table_get(v: &TaskVec, i: usize) -> (r: TaskMeta)
    requires
        i < table_items(*v).len(),
    ensures
        r == table_items(*v)[i as int],
{
    v[i]
}

/// Relies on index assignment into a heapless::Vec (through DerefMut to a
/// slice): replaces the item at position `i`.
#[verifier::external_body]
pub(crate) fn table_set(v: &mut TaskVec, i: usize, t: TaskMeta)
    requires
        i < table_items(*old(v)).len(),
    ensures
        table_items(*final(v)) == table_items(*old(v)).update(i as int, t),
{
    v[i] = t;
}

} // verus!
