//! Tables in which each name belongs to one user and each user has one name.

use std::collections::hash_map::RandomState;

use bimap::BiHashMap;
use vstd::prelude::*;

verus! {

/// `BiHashMap` of the `bimap` crate.
#[verifier::external_type_specification]
#[verifier::external_body]
#[verifier::reject_recursive_types(L)]
#[verifier::reject_recursive_types(R)]
#[verifier::reject_recursive_types(LS)]
#[verifier::reject_recursive_types(RS)]
pub struct ExBiHashMap<L, R, LS, RS>(BiHashMap<L, R, LS, RS>);

/// The pairs that the table holds: each name with the user it belongs to.
pub uninterp spec fn names_in(
    table: BiHashMap<String, u64, RandomState, RandomState>,
) -> Map<Seq<char>, u64>;

/// `true` when no user has two of the names.
pub open spec fn one_name_each(names: Map<Seq<char>, u64>) -> bool {
    forall|a: Seq<char>, b: Seq<char>| #[trigger]
        names.contains_key(a) && #[trigger] names.contains_key(b) && names[a] == names[b] ==> a
            == b
}

/// The names without any of the given user.
pub open spec fn without_user(names: Map<Seq<char>, u64>, user: u64) -> Map<Seq<char>, u64> {
    names.restrict(Set::new(|name: Seq<char>| names[name] != user))
}

/// The names after the user took the given one: any other name of the user is gone, and any other
/// user of the name lost it.
pub open spec fn renamed(names: Map<Seq<char>, u64>, name: Seq<char>, user: u64) -> Map<
    Seq<char>,
    u64,
> {
    without_user(names, user).insert(name, user)
}

/// The user whom a name belongs to.
pub open spec fn user_named(names: Map<Seq<char>, u64>, name: Seq<char>) -> Option<u64> {
    if names.contains_key(name) {
        Some(names[name])
    } else {
        None
    }
}

/// `true` when `name` belongs to the user.
pub open spec fn is_name_of(names: Map<Seq<char>, u64>, name: Seq<char>, user: u64) -> bool {
    names.contains_key(name) && names[name] == user
}

/// The name of a user.
pub open spec fn name_of(names: Map<Seq<char>, u64>, user: u64) -> Option<Seq<char>> {
    if exists|name: Seq<char>| is_name_of(names, name, user) {
        Some(choose|name: Seq<char>| is_name_of(names, name, user))
    } else {
        None
    }
}

/// A table of names.
#[derive(Debug)]
pub struct NameTable {
    table: BiHashMap<String, u64>,
}

impl View for NameTable {
    type V = Map<Seq<char>, u64>;

    closed spec fn view(&self) -> Map<Seq<char>, u64> {
        names_in(self.table)
    }
}

/// `BiHashMap::new` of the `bimap` crate: an empty table.
#[verifier::external_body]
fn bimap_new() -> (table: BiHashMap<String, u64>)
    ensures
        names_in(table) == (Map::<Seq<char>, u64>::empty()),
{
    BiHashMap::new()
}

/// `BiHashMap::len` of the `bimap` crate: the number of pairs.
#[verifier::external_body]
fn bimap_len(table: &BiHashMap<String, u64>) -> (len: usize)
    ensures
        len == names_in(*table).len(),
{
    table.len()
}

/// `BiHashMap::get_by_left` of the `bimap` crate: the user paired with a name, if there is one.
#[verifier::external_body]
fn bimap_get_by_left(table: &BiHashMap<String, u64>, name: &str) -> (user: Option<u64>)
    ensures
        user == user_named(names_in(*table), name@),
{
    table.get_by_left(name).copied()
}

/// `BiHashMap::get_by_right` of the `bimap` crate: a name paired with the user; none when no name
/// is.
#[verifier::external_body]
fn bimap_get_by_right<'a>(table: &'a BiHashMap<String, u64>, user: u64) -> (name: Option<
    &'a String,
>)
    ensures
        name matches Some(n) ==> is_name_of(names_in(*table), n@, user),
        name is None ==> forall|n: Seq<char>| !is_name_of(names_in(*table), n, user),
{
    table.get_by_right(&user)
}

/// `BiHashMap::remove_by_right` of the `bimap` crate: takes the pair of the user out and hands it
/// back.
#[verifier::external_body]
fn bimap_remove_by_right(table: &mut BiHashMap<String, u64>, user: u64) -> (removed: Option<
    (String, u64),
>)
    ensures
        names_in(*final(table)) == without_user(names_in(*old(table)), user),
        removed matches Some(pair) ==> pair.1 == user && is_name_of(
            names_in(*old(table)),
            pair.0@,
            user,
        ),
        removed is None ==> forall|n: Seq<char>| !is_name_of(names_in(*old(table)), n, user),
{
    table.remove_by_right(&user)
}

/// `BiHashMap::insert` of the `bimap` crate: takes out the pair that has the name and the one that
/// has the user, and adds the new pair.
#[verifier::external_body]
fn bimap_insert(table: &mut BiHashMap<String, u64>, name: String, user: u64)
    ensures
        names_in(*final(table)) == renamed(names_in(*old(table)), name@, user),
{
    table.insert(name, user);
}

impl NameTable {
    /// A table without names.
    pub fn new() -> (table: NameTable)
        ensures
            table@ == Map::<Seq<char>, u64>::empty(),
    {
        NameTable { table: bimap_new() }
    }

    /// The number of names.
    pub fn len(&self) -> (len: usize)
        ensures
            len == self@.len(),
    {
        bimap_len(&self.table)
    }

    /// The user whom `name` belongs to.
    pub fn user(&self, name: &str) -> (user: Option<u64>)
        ensures
            user == user_named(self@, name@),
    {
        bimap_get_by_left(&self.table, name)
    }

    /// The name of the user.
    pub fn name(&self, user: u64) -> (name: Option<String>)
        requires
            one_name_each(self@),
        ensures
            crate::text::text_of(name) == name_of(self@, user),
    {
        match bimap_get_by_right(&self.table, user) {
            Some(name) => {
                proof {
                    lemma_name_of(self@, name@, user);
                }
                Some(name.clone())
            },
            None => None,
        }
    }

    /// Gives the user the name: it replaces the user's earlier name, and no other user keeps it.
    pub fn rename(&mut self, name: String, user: u64)
        requires
            one_name_each(old(self)@),
        ensures
            final(self)@ == renamed(old(self)@, name@, user),
            one_name_each(final(self)@),
    {
        if let Some(current) = bimap_get_by_right(&self.table, user) {
            if *current != name {
                bimap_remove_by_right(&mut self.table, user);
            }
        }
        bimap_insert(&mut self.table, name, user);
        proof {
            assert(renamed(without_user(old(self)@, user), name@, user) =~= renamed(
                old(self)@,
                name@,
                user,
            ));
        }
    }
}

/// The name of a user is the one that belongs to the user.
pub proof fn lemma_name_of(names: Map<Seq<char>, u64>, name: Seq<char>, user: u64)
    requires
        one_name_each(names),
        is_name_of(names, name, user),
    ensures
        name_of(names, user) == Some(name),
{
}

/// What renaming a user does to every name: the new one belongs to the user, any other of theirs is
/// gone, and all others belong to whom they belonged.
pub proof fn renaming_changes_one_user(
    names: Map<Seq<char>, u64>,
    name: Seq<char>,
    user: u64,
    other: Seq<char>,
)
    ensures
        renamed(names, name, user).contains_key(name),
        renamed(names, name, user)[name] == user,
        other != name ==> (renamed(names, name, user).contains_key(other) <==> names.contains_key(
            other,
        ) && names[other] != user),
        other != name && names.contains_key(other) && names[other] != user ==> renamed(
            names,
            name,
            user,
        )[other] == names[other],
{
}

/// A name is looked up by its characters, and gives the user it belongs to.
pub proof fn lookup_gives_the_owner(names: Map<Seq<char>, u64>, name: Seq<char>)
    ensures
        names.contains_key(name) ==> user_named(names, name) == Some(names[name]),
        !names.contains_key(name) ==> user_named(names, name) is None,
{
}

/// A user is looked up in all names: the one that belongs to the user comes back, and none exactly
/// if none does.
pub proof fn lookup_gives_the_name(names: Map<Seq<char>, u64>, name: Seq<char>, user: u64)
    requires
        forall|a: Seq<char>, b: Seq<char>| #[trigger]
            names.contains_key(a) && #[trigger] names.contains_key(b) && names[a] == names[b] ==> a
                == b,
    ensures
        names.contains_key(name) && names[name] == user ==> name_of(names, user) == Some(name),
        (forall|n: Seq<char>| #[trigger] names.contains_key(n) ==> names[n] != user) ==> name_of(
            names,
            user,
        ) is None,
{
    if names.contains_key(name) && names[name] == user {
        assert(is_name_of(names, name, user));
        lemma_name_of(names, name, user);
    }
}

} // verus!
