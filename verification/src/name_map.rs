//! A map keyed by names.
use vstd::prelude::*;

use crate::text::same_text;

verus! {

/// The map that entries add up to: a later one replaces an earlier one of the same name.
pub open spec fn entries_map<T>(entries: Seq<(String, T)>) -> Map<Seq<char>, T>
    decreases entries.len(),
{
    if entries.len() == 0 {
        Map::empty()
    } else {
        entries_map(entries.drop_last()).insert(entries.last().0@, entries.last().1)
    }
}

/// Values by name.
#[derive(Debug)]
pub struct NameMap<T> {
    entries: Vec<(String, T)>,
}

impl<T> View for NameMap<T> {
    type V = Map<Seq<char>, T>;

    closed spec fn view(&self) -> Map<Seq<char>, T> {
        entries_map(self.entries@)
    }
}

impl<T> NameMap<T> {
    /// A map without entries.
    pub fn new() -> (map: Self)
        ensures
            map@ == Map::<Seq<char>, T>::empty(),
    {
        NameMap { entries: Vec::new() }
    }

    /// Puts `value` under `name`, in place of any value of that name.
    pub fn insert(&mut self, name: String, value: T)
        ensures
            final(self)@ == old(self)@.insert(name@, value),
    {
        let ghost before = self.entries@;
        self.entries.push((name, value));
        proof {
            assert(self.entries@.drop_last() =~= before);
        }
    }

    /// The value under `name`.
    pub fn get(&self, name: &str) -> (value: Option<&T>)
        ensures
            match value {
                Some(value) => self@.contains_key(name@) && self@[name@] == *value,
                None => !self@.contains_key(name@),
            },
    {
        let mut n: usize = self.entries.len();
        proof {
            assert(self.entries@.take(n as int) =~= self.entries@);
        }
        while n > 0
            invariant
                n <= self.entries.len(),
                self@.contains_key(name@) == entries_map(self.entries@.take(n as int)).contains_key(
                    name@,
                ),
                self@.contains_key(name@) ==> self@[name@] == entries_map(
                    self.entries@.take(n as int),
                )[name@],
            decreases n,
        {
            proof {
                assert(self.entries@.take(n as int).drop_last() =~= self.entries@.take(n - 1));
            }
            n = n - 1;
            if same_text(self.entries[n].0.as_str(), name) {
                return Some(&self.entries[n].1);
            }
        }
        None
    }
}

/// A value that was put under a name is found under it, and what is found under any other name stays.
pub proof fn law_put_value_is_found<T>(
    name: String,
    value: T,
    asked: &str,
    before: Option<&T>,
    after: Option<&T>,
)
    ensures
        forall|map: &mut NameMap<T>|
            (#[trigger] call_ensures(NameMap::<T>::insert, (map, name, value), ())
                && call_ensures(NameMap::<T>::get, (&*map, asked), before) && call_ensures(
                NameMap::<T>::get,
                (&*final(map), asked),
                after,
            )) ==> after == if asked@ == name@ {
                Some(&value)
            } else {
                before
            },
{
    assert forall|map: &mut NameMap<T>|
        (#[trigger] call_ensures(NameMap::<T>::insert, (map, name, value), ()) && call_ensures(
            NameMap::<T>::get,
            (&*map, asked),
            before,
        ) && call_ensures(NameMap::<T>::get, (&*final(map), asked), after)) implies after
        == if asked@ == name@ {
        Some(&value)
    } else {
        before
    } by {
        assert(final(map)@ == map@.insert(name@, value));
    }
}

/// Nothing is found in a map without entries.
pub proof fn law_new_map_is_empty<T>(map: NameMap<T>, asked: &str, found: Option<&T>)
    requires
        call_ensures(NameMap::<T>::new, (), map),
        call_ensures(NameMap::<T>::get, (&map, asked), found),
    ensures
        found is None,
{
}

} // verus!
