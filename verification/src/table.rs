use crate::token::{copy_bytes, same_bytes};
use vstd::prelude::*;

verus! {

/// One named slot of a [`NameTable`].
pub struct Slot<V> {
    pub name: Vec<u8>,
    pub value: V,
}

/// A finite map from names to values, kept as a list of slots in which no
/// name occurs twice.
pub struct NameTable<V> {
    slots: Vec<Slot<V>>,
}

/// Whether some slot of `slots` is named `name`.
pub open spec fn has_name<V>(slots: Seq<Slot<V>>, name: Seq<u8>) -> bool {
    exists|i: int| 0 <= i < slots.len() && (#[trigger] slots[i]).name@ == name
}

/// The position of a slot named `name`, where there is one.
pub open spec fn slot_of<V>(slots: Seq<Slot<V>>, name: Seq<u8>) -> int {
    choose|i: int| 0 <= i < slots.len() && (#[trigger] slots[i]).name@ == name
}

/// No two slots of `slots` bear the same name.
pub open spec fn distinct_names<V>(slots: Seq<Slot<V>>) -> bool {
    forall|i: int, j: int|
        0 <= i < j < slots.len() ==> (#[trigger] slots[i]).name@ != (#[trigger] slots[j]).name@
}

/// The map that a list of slots stands for.
pub open spec fn slots_map<V>(slots: Seq<Slot<V>>) -> Map<Seq<u8>, V> {
    Map::new(|name: Seq<u8>| has_name(slots, name), |name: Seq<u8>| slots[slot_of(slots, name)].value)
}

impl<V> View for NameTable<V> {
    type V = Map<Seq<u8>, V>;

    closed spec fn view(&self) -> Map<Seq<u8>, V> {
        slots_map(self.slots@)
    }
}

impl<V> NameTable<V> {
    /// The table's invariant: no name occurs twice.
    pub closed spec fn wf(&self) -> bool {
        distinct_names(self.slots@)
    }

    /// An empty table.
    pub fn new() -> (r: Self)
        ensures
            r.wf(),
            r@ == Map::<Seq<u8>, V>::empty(),
    {
        let r = NameTable { slots: Vec::new() };
        assert(r@ =~= Map::<Seq<u8>, V>::empty());
        r
    }

    /// The slot that holds `name`, if the table has it.
    fn find(&self, name: &[u8]) -> (r: Option<usize>)
        requires
            self.wf(),
        ensures
            match r {
                Some(i) => i < self.slots@.len() && self.slots@[i as int].name@ == name@
                    && slot_of(self.slots@, name@) == i,
                None => !has_name(self.slots@, name@),
            },
            has_name(self.slots@, name@) == self@.dom().contains(name@),
    {
        let mut i: usize = 0;
        while i < self.slots.len()
            invariant
                i <= self.slots@.len(),
                distinct_names(self.slots@),
                forall|j: int| 0 <= j < i ==> (#[trigger] self.slots@[j]).name@ != name@,
            decreases self.slots.len() - i,
        {
            if same_bytes(self.slots[i].name.as_slice(), name) {
                return Some(i);
            }
            i += 1;
        }
        None
    }

    /// Whether the table binds `name`.
    pub fn contains(&self, name: &[u8]) -> (r: bool)
        requires
            self.wf(),
        ensures
            r == self@.dom().contains(name@),
    {
        self.find(name).is_some()
    }

    /// The value bound to `name`, if any.
    pub fn get(&self, name: &[u8]) -> (r: Option<&V>)
        requires
            self.wf(),
        ensures
            r == (if self@.dom().contains(name@) {
                Some(&self@[name@])
            } else {
                None
            }),
    {
        match self.find(name) {
            Some(i) => Some(&self.slots[i].value),
            None => None,
        }
    }

    /// Binds `name` to `value`, replacing an earlier binding of `name`.
    pub fn insert(&mut self, name: &[u8], value: V)
        requires
            old(self).wf(),
        ensures
            final(self).wf(),
            final(self)@ == old(self)@.insert(name@, value),
    {
        let found = self.find(name);
        let ghost before = self.slots@;
        match found {
            Some(i) => {
                let key = copy_bytes(name);
                self.slots.set(i, Slot { name: key, value });
                proof {
                    let after = self.slots@;
                    assert forall|k: Seq<u8>| has_name(after, k) == has_name(before, k) by {
                        if has_name(before, k) {
                            let j = slot_of(before, k);
                            assert(after[j].name@ == k);
                        }
                        if has_name(after, k) {
                            let j = slot_of(after, k);
                            assert(before[j].name@ == k);
                        }
                    }
                    assert forall|k: Seq<u8>| has_name(after, k) implies #[trigger] slots_map(
                        after,
                    )[k] == slots_map(before).insert(name@, value)[k] by {
                        let j = slot_of(after, k);
                        assert(before[j].name@ == k);
                        let j0 = slot_of(before, k);
                        assert(before[j0].name@ == k);
                    }
                    assert(slots_map(after) =~= slots_map(before).insert(name@, value));
                }
            },
            None => {
                let key = copy_bytes(name);
                self.slots.push(Slot { name: key, value });
                proof {
                    let after = self.slots@;
                    let last = before.len() as int;
                    assert(after[last].name@ == name@);
                    assert forall|k: Seq<u8>|
                        has_name(after, k) == (has_name(before, k) || k == name@) by {
                        if has_name(before, k) {
                            let j = slot_of(before, k);
                            assert(after[j].name@ == k);
                        }
                        if has_name(after, k) {
                            let j = slot_of(after, k);
                            if j < last {
                                assert(before[j].name@ == k);
                            }
                        }
                    }
                    assert forall|k: Seq<u8>| has_name(after, k) implies #[trigger] slots_map(
                        after,
                    )[k] == slots_map(before).insert(name@, value)[k] by {
                        let j = slot_of(after, k);
                        if j < last {
                            assert(before[j].name@ == k);
                            let j0 = slot_of(before, k);
                            assert(before[j0].name@ == k);
                        }
                    }
                    assert(slots_map(after) =~= slots_map(before).insert(name@, value));
                }
            },
        }
    }
}

} // verus!
