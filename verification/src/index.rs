use indexmap::IndexSet;
use vstd::prelude::*;

verus! {

/// `indexmap::IndexSet`, declared so that a shelf can hold one: the
/// insertion-ordered hash set backing the shelf's identity index.
#[verifier::external_type_specification]
#[verifier::external_body]
#[verifier::reject_recursive_types(T)]
#[verifier::reject_recursive_types(S)]
pub struct ExIndexSet<T, S>(IndexSet<T, S>);

/// The locations an identity index holds, in insertion order.
pub uninterp spec fn locs_of(s: IndexSet<String>) -> Seq<Seq<char>>;

/// Relies on `indexmap::IndexSet::new`: a freshly created set is empty.
#[verifier::external_body]
pub(crate) fn index_new() -> (s: IndexSet<String>)
    ensures
        locs_of(s) == Seq::<Seq<char>>::empty(),
{
    IndexSet::new()
}

/// Relies on `indexmap::IndexSet::insert`: a value not yet in the set is
/// inserted last in order and `true` comes back; a value already in the
/// set leaves the set untouched and `false` comes back.
#[verifier::external_body]
pub(crate) fn index_insert(s: &mut IndexSet<String>, v: String) -> (r: bool)
    ensures
        r == !locs_of(*old(s)).contains(v@),
        r ==> locs_of(*final(s)) == locs_of(*old(s)).push(v@),
        !r ==> locs_of(*final(s)) == locs_of(*old(s)),
{
    s.insert(v)
}

/// Relies on `indexmap::IndexSet::get_index_of`: the position of the value
/// in the set's insertion order, `None` when the value is not in the set.
#[verifier::external_body]
pub(crate) fn index_get_index_of(s: &IndexSet<String>, v: &String) -> (r: Option<usize>)
    ensures
        match r {
            Some(i) => i < locs_of(*s).len() && locs_of(*s)[i as int] == v@,
            None => !locs_of(*s).contains(v@),
        },
{
    s.get_index_of(v)
}

/// Relies on `indexmap::IndexSet::shift_remove_index`: removes the value
/// at the position given, like `Vec::remove`, shifting every later value
/// down while preserving their relative order; `None` comes back when the
/// position is out of bounds.
#[verifier::external_body]
pub(crate) fn index_shift_remove_index(s: &mut IndexSet<String>, i: usize) -> (r: Option<String>)
    ensures
        i < locs_of(*old(s)).len() ==> (r matches Some(v) && (v@ == locs_of(*old(s))[i as int]
            && locs_of(*final(s)) == locs_of(*old(s)).remove(i as int))),
        i >= locs_of(*old(s)).len() ==> r is None && locs_of(*final(s)) == locs_of(*old(s)),
{
    s.shift_remove_index(i)
}

} // verus!
