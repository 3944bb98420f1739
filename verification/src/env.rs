//! The environment of the code generator: a persistent map from names to
//! stack slots. Extending it yields a new map and leaves the old one as it
//! was, so a scope can never disturb the scopes around it.

use vstd::prelude::*;

verus! {

#[verifier::external_type_specification]
#[verifier::external_body]
#[verifier::reject_recursive_types(K)]
#[verifier::reject_recursive_types(V)]
#[verifier::reject_recursive_types(S)]
pub struct ExHashMap<K, V, S>(im::HashMap<K, V, S>);

/// The slot that each name is bound to in an environment.
pub uninterp spec fn contents(env: im::HashMap<String, i32>) -> Map<Seq<char>, i32>;

/// The environment that binds nothing.
///
/// Calls `im::HashMap::new`; the contract claims that the new map has no
/// entry.
#[verifier::external_body]
pub(crate) fn empty_env() -> (out: im::HashMap<String, i32>)
    ensures
        (contents(out) == Map::<Seq<char>, i32>::empty()),
{
    im::HashMap::new()
}

/// The slot that `name` is bound to, if it is bound.
///
/// Calls `im::HashMap::get`; the contract claims that it finds the entry
/// whose key has the same characters as `name`, and nothing where there is
/// no such entry.
#[verifier::external_body]
pub(crate) fn lookup(env: &im::HashMap<String, i32>, name: &String) -> (slot: Option<i32>)
    ensures
        slot == if contents(*env).contains_key(name@) {
            Some(contents(*env)[name@])
        } else {
            None
        },
{
    env.get(name).copied()
}

/// The environment that binds `name` to `slot` and everything else as
/// `env` does.
///
/// Calls `im::HashMap::update`; the contract claims that the result holds
/// the entries of `env` with the one for `name` added or replaced.
#[verifier::external_body]
pub(crate) fn extend(env: &im::HashMap<String, i32>, name: String, slot: i32) -> (out:
    im::HashMap<String, i32>)
    ensures
        contents(out) == contents(*env).insert(name@, slot),
{
    env.update(name, slot)
}

/// Some name is bound to the slot.
pub open spec fn binds_slot(bound: Map<Seq<char>, i32>, slot: i32) -> bool {
    exists|name: Seq<char>| #[trigger] bound.contains_key(name) && bound[name] == slot
}

/// The slots that an environment binds names to, in no stated order.
///
/// Calls `im::HashMap::values`; the contract claims that the slot of every
/// bound name comes out, and nothing else.
#[verifier::external_body]
pub(crate) fn bound_slots(env: &im::HashMap<String, i32>) -> (slots: Vec<i32>)
    ensures
        forall|name: Seq<char>|
            contents(*env).contains_key(name) ==> slots@.contains(#[trigger] contents(*env)[name]),
        forall|k: int| 0 <= k < slots.len() ==> binds_slot(contents(*env), #[trigger] slots[k]),
{
    env.values().copied().collect()
}

} // verus!
