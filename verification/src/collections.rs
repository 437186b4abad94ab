//! Insertion-ordered collections of the `indexmap` crate, behind contracts.
//!
//! An `IndexSet<String>` is seen through the sequence of the strings it holds,
//! an `IndexMap<String, Player>` through the sequence of its entries, both in
//! insertion order.  Removal is `swap_remove`: the last item takes the place
//! of the removed one.

use vstd::prelude::*;
use indexmap::IndexMap;
use indexmap::IndexSet;
use crate::state::Player;

verus! {

#[verifier::external_type_specification]
#[verifier::external_body]
#[verifier::reject_recursive_types(T)]
#[verifier::reject_recursive_types(S)]
pub struct ExIndexSet<T, S>(IndexSet<T, S>);

#[verifier::external_type_specification]
#[verifier::external_body]
#[verifier::reject_recursive_types(K)]
#[verifier::reject_recursive_types(V)]
#[verifier::reject_recursive_types(S)]
pub struct ExIndexMap<K, V, S>(IndexMap<K, V, S>);

/// `s` with its item at `i` removed the way `swap_remove` does it: the last
/// item moves into position `i`.
pub open spec fn swap_removed<A>(s: Seq<A>, i: int) -> Seq<A> {
    if i == s.len() - 1 {
        s.drop_last()
    } else {
        s.update(i, s.last()).drop_last()
    }
}

/// The position at which `v` occurs in `s`.
pub open spec fn position_of<A>(s: Seq<A>, v: A) -> int {
    choose|i: int| 0 <= i < s.len() && s[i] == v
}

/// The keys of a sequence of entries.
pub open spec fn entry_keys(entries: Seq<(Seq<char>, Player)>) -> Seq<Seq<char>> {
    entries.map_values(|e: (Seq<char>, Player)| e.0)
}

/// The names held by a set, in insertion order.
pub uninterp spec fn name_set_items(s: IndexSet<String>) -> Seq<Seq<char>>;

/// The entries of a player map, key and value, in insertion order.
pub uninterp spec fn player_entries(m: IndexMap<String, Player>) -> Seq<(Seq<char>, Player)>;

/// `IndexSet::new`: a set that holds nothing.
#[verifier::external_body]
pub(crate) fn name_set_new() -> (s: IndexSet<String>)
    ensures
        name_set_items(s) == Seq::<Seq<char>>::empty(),
{
    IndexSet::new()
}

/// `IndexSet::len`: the number of items.
#[verifier::external_body]
pub(crate) fn name_set_len(s: &IndexSet<String>) -> (r: usize)
    ensures
        r == name_set_items(*s).len(),
{
    s.len()
}

/// `IndexSet::contains`: whether an equal string is held.
#[verifier::external_body]
pub(crate) fn name_set_contains(s: &IndexSet<String>, value: &str) -> (r: bool)
    ensures
        r == name_set_items(*s).contains(value@),
{
    s.contains(value)
}

/// `IndexSet::get_index`: the item at position `i`, if there is one.
#[verifier::external_body]
pub(crate) fn name_set_get_index(s: &IndexSet<String>, i: usize) -> (r: Option<&String>)
    ensures
        i < name_set_items(*s).len() ==> r.is_some() && r.unwrap()@ == name_set_items(*s)[i as int],
        r is None <== i >= name_set_items(*s).len(),
{
    s.get_index(i)
}

/// `IndexSet::insert`: appends `value` unless an equal string is held already;
/// says whether it appended.
#[verifier::external_body]
pub(crate) fn name_set_insert(s: &mut IndexSet<String>, value: String) -> (r: bool)
    ensures
        r == !name_set_items(*old(s)).contains(value@),
        r ==> name_set_items(*final(s)) == name_set_items(*old(s)).push(value@),
        !r ==> name_set_items(*final(s)) == name_set_items(*old(s)),
{
    s.insert(value)
}

/// `IndexSet::swap_remove`: removes the string equal to `value`, if held, by
/// moving the last item into its place; says whether it removed one.
#[verifier::external_body]
pub(crate) fn name_set_swap_remove(s: &mut IndexSet<String>, value: &str) -> (r: bool)
    ensures
        r == name_set_items(*old(s)).contains(value@),
        r ==> name_set_items(*final(s)) == swap_removed(
            name_set_items(*old(s)),
            position_of(name_set_items(*old(s)), value@),
        ),
        !r ==> name_set_items(*final(s)) == name_set_items(*old(s)),
{
    s.swap_remove(value)
}

/// `IndexMap::new`: a map without entries.
#[verifier::external_body]
pub(crate) fn player_map_new() -> (m: IndexMap<String, Player>)
    ensures
        player_entries(m) == Seq::<(Seq<char>, Player)>::empty(),
{
    IndexMap::new()
}

/// `IndexMap::len`: the number of entries.
#[verifier::external_body]
pub(crate) fn player_map_len(m: &IndexMap<String, Player>) -> (r: usize)
    ensures
        r == player_entries(*m).len(),
{
    m.len()
}

/// `IndexMap::get_index`: the entry at position `i`, if there is one.
#[verifier::external_body]
pub(crate) fn player_map_get_index(m: &IndexMap<String, Player>, i: usize) -> (r: Option<
    (&String, &Player),
>)
    ensures
        i < player_entries(*m).len() ==> r.is_some() && r.unwrap().0@ == player_entries(
            *m,
        )[i as int].0 && *r.unwrap().1 == player_entries(*m)[i as int].1,
        r is None <== i >= player_entries(*m).len(),
{
    m.get_index(i)
}

/// `IndexMap::get_index_of`: the position of the entry whose key equals `key`.
#[verifier::external_body]
pub(crate) fn player_map_get_index_of(m: &IndexMap<String, Player>, key: &str) -> (r: Option<usize>)
    ensures
        r matches Some(i) ==> i < player_entries(*m).len() && player_entries(*m)[i as int].0
            == key@,
        r is None ==> !entry_keys(player_entries(*m)).contains(key@),
{
    m.get_index_of(key)
}

/// `IndexMap::insert`: where an entry has an equal key, its value is replaced
/// in place and the old value handed back; otherwise the entry is appended.
#[verifier::external_body]
pub(crate) fn player_map_insert(m: &mut IndexMap<String, Player>, key: String, value: Player) -> (r:
    Option<Player>)
    ensures
        ({
            let old_entries = player_entries(*old(m));
            let i = position_of(entry_keys(old_entries), key@);
            if entry_keys(old_entries).contains(key@) {
                &&& r == Some(old_entries[i].1)
                &&& player_entries(*final(m)) == old_entries.update(i, (old_entries[i].0, value))
            } else {
                &&& r is None
                &&& player_entries(*final(m)) == old_entries.push((key@, value))
            }
        }),
{
    m.insert(key, value)
}

/// `IndexMap::swap_remove`: removes the entry whose key equals `key`, if
/// any, by moving the last entry into its place; hands back its value.
#[verifier::external_body]
pub(crate) fn player_map_swap_remove(m: &mut IndexMap<String, Player>, key: &str) -> (r: Option<
    Player,
>)
    ensures
        ({
            let old_entries = player_entries(*old(m));
            let i = position_of(entry_keys(old_entries), key@);
            if entry_keys(old_entries).contains(key@) {
                &&& r == Some(old_entries[i].1)
                &&& player_entries(*final(m)) == swap_removed(old_entries, i)
            } else {
                &&& r is None
                &&& player_entries(*final(m)) == old_entries
            }
        }),
{
    m.swap_remove(key)
}

} // verus!
