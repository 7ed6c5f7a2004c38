use vstd::prelude::*;

use dict::Dict;
use dict::DictIface;

verus! {

#[verifier::external_type_specification]
#[verifier::external_body]
#[verifier::reject_recursive_types(T)]
pub struct ExDictEntry<T>(dict::DictEntry<T>);

/// The slot a variable name is stored under in a `dict::Dict`: the value of
/// `dict`'s internal key hash (`DefaultHasher` seeded by `new`, the same for
/// every instance), a function of the name's characters alone. Two distinct
/// names may share a slot; `Dict::add` refuses the second of them.
pub uninterp spec fn name_slot(name: Seq<char>) -> u64;

/// What a `dict::Dict<bool>` holds: its entries' values, keyed by the slot
/// (key hash) each entry is stored under.
pub uninterp spec fn dict_slots(d: Dict<bool>) -> Map<u64, bool>;

/// Relies on `Dict::new` (`Vec::new`): the new dictionary has no entries, so
/// no slot is occupied.
#[verifier::external_body]
fn dict_empty() -> (r: Dict<bool>)
    ensures
        forall|s: u64| !dict_slots(r).dom().contains(s),
{
    Dict::new()
}

/// Relies on `dict::DictIface::add`: it binary-searches the entries for the
/// key's hash, refuses the insertion when that slot is occupied (an equal key
/// or a colliding one), and otherwise inserts the entry at the slot's sorted
/// position. Every dictionary these wrappers build is sorted by slot, as
/// `add` keeps it.
#[verifier::external_body]
fn dict_add(d: &mut Dict<bool>, name: &str, value: bool) -> (r: bool)
    ensures
        r == !dict_slots(*old(d)).dom().contains(name_slot(name@)),
        r ==> dict_slots(*final(d)) == dict_slots(*old(d)).insert(name_slot(name@), value),
        !r ==> dict_slots(*final(d)) == dict_slots(*old(d)),
{
    d.add(name.to_string(), value)
}

/// Relies on `dict::DictIface::get`: it binary-searches the entries for the
/// key's hash and returns the value stored at that slot, if any.
#[verifier::external_body]
fn dict_lookup(d: &Dict<bool>, name: &str) -> (r: Option<bool>)
    ensures
        r == if dict_slots(*d).dom().contains(name_slot(name@)) {
            Some(dict_slots(*d)[name_slot(name@)])
        } else {
            None::<bool>
        },
{
    match d.get(name) {
        Some(v) => Some(*v),
        None => None,
    }
}

/// A finite mapping from variable names to booleans, backed by a
/// `dict::Dict<bool>`. Viewed abstractly (`@`) it is a map from name to
/// value whose domain is every name whose slot is occupied.
pub struct Assignment {
    entries: Dict<bool>,
}

impl View for Assignment {
    type V = Map<Seq<char>, bool>;

    open spec fn view(&self) -> Map<Seq<char>, bool> {
        Map::new(
            |name: Seq<char>| self.slots().dom().contains(name_slot(name)),
            |name: Seq<char>| self.slots()[name_slot(name)],
        )
    }
}

impl Assignment {
    /// The underlying slot map of the backing dictionary.
    pub closed spec fn slots(self) -> Map<u64, bool> {
        dict_slots(self.entries)
    }

    /// An empty assignment: no name is bound.
    pub fn new() -> (a: Assignment)
        ensures
            a.slots() == Map::<u64, bool>::empty(),
            a@ == Map::<Seq<char>, bool>::empty(),
    {
        let a = Assignment { entries: dict_empty() };
        proof {
            assert(a.slots().dom() =~= Set::<u64>::empty());
            assert(a.slots() =~= Map::<u64, bool>::empty());
            assert(a@.dom() =~= Set::<Seq<char>>::empty());
            assert(a@ =~= Map::<Seq<char>, bool>::empty());
        }
        a
    }

    /// Binds a name to a value. Returns true and occupies the name's slot if
    /// that slot was free; returns false and changes nothing otherwise.
    pub fn insert(&mut self, name: &str, value: bool) -> (r: bool)
        ensures
            r == !old(self).slots().dom().contains(name_slot(name@)),
            r ==> final(self).slots() == old(self).slots().insert(name_slot(name@), value),
            !r ==> final(self).slots() == old(self).slots(),
            r ==> final(self)@.dom().contains(name@) && final(self)@[name@] == value,
    {
        let r = dict_add(&mut self.entries, name, value);
        r
    }

    /// Looks a name up: its value if the name's slot is occupied, else None.
    pub fn get(&self, name: &str) -> (r: Option<bool>)
        ensures
            r == if self@.dom().contains(name@) {
                Some(self@[name@])
            } else {
                None::<bool>
            },
    {
        dict_lookup(&self.entries, name)
    }
}

} // verus!
