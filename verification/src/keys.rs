//! The ordered set of keys of an object node, kept in an
//! `indexmap::IndexSet`.
use vstd::prelude::*;
use indexmap::IndexSet;

verus! {

/// `indexmap::IndexSet`: a set that keeps its items in the order in
/// which they were put in. Nothing is known of what is inside it but
/// through `keys_of`.
#[verifier::external_type_specification]
#[verifier::external_body]
#[verifier::reject_recursive_types(T)]
#[verifier::reject_recursive_types(S)]
pub struct ExIndexSet<T, S>(IndexSet<T, S>);

/// The keys that an `indexmap::IndexSet` of strings holds, in the set's
/// order.
pub uninterp spec fn keys_of(s: IndexSet<String>) -> Seq<Seq<char>>;

/// `IndexSet::new`: a set without keys.
#[verifier::external_body]
pub(crate) fn keys_new() -> (r: IndexSet<String>)
    ensures
        keys_of(r) == Seq::<Seq<char>>::empty(),
{
    IndexSet::new()
}

/// `IndexSet::clone`: a set with the same keys in the same order.
#[verifier::external_body]
pub(crate) fn keys_clone(s: &IndexSet<String>) -> (r: IndexSet<String>)
    ensures
        keys_of(r) == keys_of(*s),
{
    s.clone()
}

/// `IndexSet`'s index by position: the key at a position within the set.
#[verifier::external_body]
pub(crate) fn keys_get_index(s: &IndexSet<String>, index: usize) -> (r: &String)
    requires
        index < keys_of(*s).len(),
    ensures
        r@ == keys_of(*s)[index as int],
{
    &s[index]
}

/// `IndexSet::get_index_of`: the position of a key, `None` where the set
/// does not hold it.
#[verifier::external_body]
pub(crate) fn keys_index_of(s: &IndexSet<String>, key: &str) -> (r: Option<usize>)
    ensures
        match r {
            Some(i) => i < keys_of(*s).len() && keys_of(*s)[i as int] == key@,
            None => !keys_of(*s).contains(key@),
        },
{
    s.get_index_of(key)
}

/// `IndexSet::insert`: a key that the set holds already leaves it as it
/// is and gives `false`; a new key goes to the end and gives `true`.
#[verifier::external_body]
pub(crate) fn keys_insert(s: &mut IndexSet<String>, key: String) -> (r: bool)
    ensures
        r == !keys_of(*old(s)).contains(key@),
        keys_of(*final(s)) == if r {
            keys_of(*old(s)).push(key@)
        } else {
            keys_of(*old(s))
        },
{
    s.insert(key)
}

/// `IndexSet::shift_remove_full`: takes a key out and moves the keys
/// after it one place forward; gives the position that the key had.
#[verifier::external_body]
pub(crate) fn keys_shift_remove(s: &mut IndexSet<String>, key: &str) -> (r: Option<usize>)
    ensures
        match r {
            Some(i) => i < keys_of(*old(s)).len() && keys_of(*old(s))[i as int] == key@
                && keys_of(*final(s)) == keys_of(*old(s)).remove(i as int),
            None => !keys_of(*old(s)).contains(key@) && keys_of(*final(s)) == keys_of(*old(s)),
        },
{
    match s.shift_remove_full(key) {
        Some((i, _)) => Some(i),
        None => None,
    }
}

/// `IndexSet::swap_remove_full`: takes a key out and puts the last key in
/// its place; gives the position that the key had.
#[verifier::external_body]
pub(crate) fn keys_swap_remove(s: &mut IndexSet<String>, key: &str) -> (r: Option<usize>)
    ensures
        match r {
            Some(i) => i < keys_of(*old(s)).len() && keys_of(*old(s))[i as int] == key@
                && keys_of(*final(s)) == swap_removed(keys_of(*old(s)), i as int),
            None => !keys_of(*old(s)).contains(key@) && keys_of(*final(s)) == keys_of(*old(s)),
        },
{
    match s.swap_remove_full(key) {
        Some((i, _)) => Some(i),
        None => None,
    }
}

/// A sequence without its item at `i`, the last item moved into the gap.
pub open spec fn swap_removed<A>(s: Seq<A>, i: int) -> Seq<A>
    recommends
        0 <= i < s.len(),
{
    if i == s.len() - 1 {
        s.drop_last()
    } else {
        s.update(i, s.last()).drop_last()
    }
}

} // verus!
