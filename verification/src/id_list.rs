//! Lists of position ids, kept in the host's vectors.

use vstd::prelude::*;

verus! {

/// `soroban_sdk::Env`, the handle of the host in which vectors live.
#[verifier::external_type_specification]
#[verifier::external_body]
pub struct ExHost(soroban_sdk::Env);

/// `soroban_sdk::Vec`, a handle of a vector in the host. The vector that a handle names never
/// changes: to push is to make the handle name a new vector.
#[verifier::external_type_specification]
#[verifier::external_body]
#[verifier::reject_recursive_types(T)]
pub struct ExHostVec<T>(soroban_sdk::Vec<T>);

/// What a host vector holds, position by position: the number there, or `None` where the host
/// value is not a `u64`. The host does not hold a vector to its element type.
pub uninterp spec fn host_items(items: soroban_sdk::Vec<u64>) -> Seq<Option<u64>>;

/// `soroban_sdk::Vec::new`: a vector without items.
#[verifier::external_body]
fn host_new(host: &soroban_sdk::Env) -> (items: soroban_sdk::Vec<u64>)
    ensures
        host_items(items) == Seq::<Option<u64>>::empty(),
{
    soroban_sdk::Vec::new(host)
}

/// `soroban_sdk::Vec::len`: the number of items.
#[verifier::external_body]
fn host_len(items: &soroban_sdk::Vec<u64>) -> (len: u32)
    ensures
        len == host_items(*items).len(),
{
    items.len()
}

/// `soroban_sdk::Vec::try_get`, within bounds: the item at `i`, or `None` where the host value
/// there does not convert to a `u64`.
#[verifier::external_body]
fn host_get(items: &soroban_sdk::Vec<u64>, i: u32) -> (item: Option<u64>)
    requires
        i < host_items(*items).len(),
    ensures
        item == host_items(*items)[i as int],
{
    items.try_get(i).unwrap_or(None)
}

/// `soroban_sdk::Vec::push_back`: the item comes after all others, which stay. The host refuses a
/// vector of more than `u32::MAX` items.
#[verifier::external_body]
fn host_push_back(items: &mut soroban_sdk::Vec<u64>, item: u64)
    requires
        host_items(*old(items)).len() < u32::MAX,
    ensures
        host_items(*final(items)) == host_items(*old(items)).push(Some(item)),
{
    items.push_back(item)
}

/// `Clone` of `soroban_sdk::Vec`: a second handle of the same vector.
#[verifier::external_body]
fn host_clone(items: &soroban_sdk::Vec<u64>) -> (copy: soroban_sdk::Vec<u64>)
    ensures
        host_items(copy) == host_items(*items),
{
    items.clone()
}

/// A list of ids: a host vector whose items are all `u64`.
pub struct IdList {
    items: soroban_sdk::Vec<u64>,
}

/// Whether every item is a number.
pub open spec fn all_numbers(items: Seq<Option<u64>>) -> bool {
    forall|i: int| 0 <= i < items.len() ==> (#[trigger] items[i]) is Some
}

/// The items as numbers, where every item is one.
pub open spec fn numbers(items: Seq<Option<u64>>) -> Seq<u64> {
    Seq::new(items.len(), |i: int| items[i]->0)
}

impl View for IdList {
    type V = Seq<u64>;

    closed spec fn view(&self) -> Seq<u64> {
        numbers(host_items(self.items))
    }
}

impl IdList {
    #[verifier::type_invariant]
    spec fn well_formed(self) -> bool {
        all_numbers(host_items(self.items))
    }

    /// The empty list.
    pub fn new(host: &soroban_sdk::Env) -> (list: IdList)
        ensures
            list@ == Seq::<u64>::empty(),
    {
        IdList { items: host_new(host) }
    }

    /// The list that a host vector holds, if all its items are numbers.
    pub fn from_host(items: soroban_sdk::Vec<u64>) -> (list: Option<IdList>)
        ensures
            match list {
                Some(list) => all_numbers(host_items(items)) && list@ == numbers(
                    host_items(items),
                ),
                None => !all_numbers(host_items(items)),
            },
            match list {
                Some(list) => list@.len() == host_items(items).len() && forall|i: int|
                    0 <= i < list@.len() ==> host_items(items)[i] == Some(#[trigger] list@[i]),
                None => exists|i: int|
                    0 <= i < host_items(items).len() && (#[trigger] host_items(items)[i]) is None,
            },
    {
        let len: u32 = host_len(&items);
        let mut i: u32 = 0;
        while i < len
            invariant
                len == host_items(items).len(),
                i <= len,
                forall|j: int| 0 <= j < i ==> (#[trigger] host_items(items)[j]) is Some,
            decreases len - i,
        {
            if host_get(&items, i).is_none() {
                return None;
            }
            i = i + 1;
        }
        Some(IdList { items })
    }

    /// The list as a host vector.
    pub fn to_host(&self) -> (items: soroban_sdk::Vec<u64>)
        ensures
            all_numbers(host_items(items)),
            numbers(host_items(items)) == self@,
            host_items(items).len() == self@.len(),
            forall|i: int| 0 <= i < self@.len() ==> host_items(items)[i] == Some(#[trigger] self@[i]),
    {
        proof {
            use_type_invariant(self);
        }
        host_clone(&self.items)
    }

    /// The number of ids.
    pub fn len(&self) -> (len: u32)
        ensures
            len == self@.len(),
    {
        host_len(&self.items)
    }

    /// The id at `i`, if there are more than `i`.
    pub fn get(&self, i: u32) -> (id: Option<u64>)
        ensures
            id == (if i < self@.len() {
                Some(self@[i as int])
            } else {
                None
            }),
    {
        proof {
            use_type_invariant(self);
        }
        if i < host_len(&self.items) {
            host_get(&self.items, i)
        } else {
            None
        }
    }

    /// Whether `id` is in the list.
    pub fn contains(&self, id: u64) -> (found: bool)
        ensures
            found == self@.contains(id),
    {
        let len: u32 = self.len();
        let mut i: u32 = 0;
        while i < len
            invariant
                len == self@.len(),
                i <= len,
                forall|j: int| 0 <= j < i ==> (#[trigger] self@[j]) != id,
            decreases len - i,
        {
            if let Some(other) = self.get(i) {
                if other == id {
                    return true;
                }
            }
            i = i + 1;
        }
        false
    }

    /// The list with `id` after all others.
    pub fn with(&self, id: u64) -> (list: IdList)
        requires
            self@.len() < u32::MAX,
        ensures
            list@ == self@.push(id),
    {
        proof {
            use_type_invariant(self);
        }
        let mut items = host_clone(&self.items);
        host_push_back(&mut items, id);
        let list = IdList { items };
        assert(list@ =~= self@.push(id));
        list
    }
}

} // verus!
