//! The persistent hash maps and hash sets of the `im` crate, as the compiler
//! uses them: identifiers to stack offsets, function names to arities, and the
//! set of declared function names.
//!
//! What the collections do is not proved here. Each contract states what the
//! `im` source shows of the method it names, over the contents of the
//! collection.

use vstd::prelude::*;

verus! {

#[verifier::external_type_specification]
#[verifier::external_body]
#[verifier::reject_recursive_types(K)]
#[verifier::reject_recursive_types(V)]
#[verifier::reject_recursive_types(S)]
pub struct ExImHashMap<K, V, S>(im::HashMap<K, V, S>);

#[verifier::external_type_specification]
#[verifier::external_body]
#[verifier::reject_recursive_types(A)]
#[verifier::reject_recursive_types(S)]
pub struct ExImHashSet<A, S>(im::HashSet<A, S>);

/// The bindings that an environment holds: each identifier with its offset.
pub uninterp spec fn env_entries(env: im::HashMap<String, i64>) -> Map<Seq<char>, i64>;

/// The entries that an arity table holds: each function name with its arity.
pub uninterp spec fn arity_entries(table: im::HashMap<String, u64>) -> Map<Seq<char>, u64>;

/// The names that a set of names holds.
pub uninterp spec fn name_members(names: im::HashSet<String>) -> Set<Seq<char>>;

/// `im::HashMap::new`: the map it returns holds nothing.
#[verifier::external_body]
pub(crate) fn env_new() -> (env: im::HashMap<String, i64>)
    ensures
        env_entries(env) == (Map::<Seq<char>, i64>::empty()),
{
    im::HashMap::new()
}

/// `im::HashMap::get`: the value stored under a key equal to `name`, if the
/// map holds one.
#[verifier::external_body]
pub(crate) fn env_get(env: &im::HashMap<String, i64>, name: &String) -> (found: Option<i64>)
    ensures
        found == if env_entries(*env).contains_key(name@) {
            Some(env_entries(*env)[name@])
        } else {
            None
        },
{
    env.get(name).copied()
}

/// `im::HashMap::update`: a new map with the entries of `env`, but with
/// `offset` under `name`, whether or not `env` had an entry there.
#[verifier::external_body]
pub(crate) fn env_update(env: &im::HashMap<String, i64>, name: String, offset: i64) -> (out:
    im::HashMap<String, i64>)
    ensures
        env_entries(out) == env_entries(*env).insert(name@, offset),
{
    env.update(name, offset)
}

/// `Clone::clone` of `im::HashMap`: the copy holds what `env` holds.
#[verifier::external_body]
pub(crate) fn env_clone(env: &im::HashMap<String, i64>) -> (out: im::HashMap<String, i64>)
    ensures
        env_entries(out) == env_entries(*env),
{
    env.clone()
}

/// `im::HashMap::new`: the table it returns holds nothing.
#[verifier::external_body]
pub(crate) fn arity_new() -> (table: im::HashMap<String, u64>)
    ensures
        arity_entries(table) == (Map::<Seq<char>, u64>::empty()),
{
    im::HashMap::new()
}

/// `im::HashMap::get`: the arity stored under a key equal to `name`, if the
/// table holds one.
#[verifier::external_body]
pub(crate) fn arity_get(table: &im::HashMap<String, u64>, name: &String) -> (found: Option<u64>)
    ensures
        found == if arity_entries(*table).contains_key(name@) {
            Some(arity_entries(*table)[name@])
        } else {
            None
        },
{
    table.get(name).copied()
}

/// `im::HashMap::insert`: afterwards the table holds `arity` under `name`,
/// in place of any earlier entry there, and its other entries as before.
#[verifier::external_body]
pub(crate) fn arity_insert(table: &mut im::HashMap<String, u64>, name: String, arity: u64)
    ensures
        arity_entries(*final(table)) == arity_entries(*old(table)).insert(name@, arity),
{
    table.insert(name, arity);
}

/// `im::HashSet::new`: the set it returns holds nothing.
#[verifier::external_body]
pub(crate) fn names_new() -> (names: im::HashSet<String>)
    ensures
        name_members(names) == Set::<Seq<char>>::empty(),
{
    im::HashSet::new()
}

/// `im::HashSet::contains`: whether the set holds a name equal to `name`.
#[verifier::external_body]
pub(crate) fn names_contains(names: &im::HashSet<String>, name: &String) -> (found: bool)
    ensures
        found == name_members(*names).contains(name@),
{
    names.contains(name)
}

/// `im::HashSet::insert`: afterwards the set holds `name` and what it held
/// before.
#[verifier::external_body]
pub(crate) fn names_insert(names: &mut im::HashSet<String>, name: String)
    ensures
        name_members(*final(names)) == name_members(*old(names)).insert(name@),
{
    names.insert(name);
}

} // verus!
