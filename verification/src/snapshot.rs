//! Automation snapshots: the ordered keyframe list captured for one
//! recording, and the store that holds one snapshot per clip base name.
//!
//! Persistence of a snapshot is an opaque key-value interface: the store is
//! the in-memory image of it, keyed by clip base name, and the caller that
//! owns the disk copy mirrors every update made here.

use vstd::prelude::*;
use crate::text::str_eq;

verus! {

/// An ordered sequence of automation keyframes: each entry is the six dial
/// values and the tick at which they take effect. A freshly created snapshot
/// holds the single seed frame of zeroed values at tick zero.
pub struct SnapShot {
    pub frames: Vec<([i32; 6], i32)>,
}

/// One snapshot per clip base name. Names are unique.
pub struct SnapshotStore {
    pub entries: Vec<(String, SnapShot)>,
}

/// The first index at which `entries` holds `name`, or -1 when it does not.
pub open spec fn find_name(entries: Seq<(String, SnapShot)>, name: Seq<char>) -> int
    decreases entries.len(),
{
    if entries.len() == 0 {
        -1
    } else if entries[0].0@ == name {
        0
    } else {
        let rest = find_name(entries.drop_first(), name);
        if rest == -1 {
            -1
        } else {
            rest + 1
        }
    }
}

/// `find_name` returns -1 exactly when no entry holds the name, and
/// otherwise the first index that holds it.
pub proof fn lemma_find_name(entries: Seq<(String, SnapShot)>, name: Seq<char>)
    ensures
        find_name(entries, name) == -1 || (0 <= find_name(entries, name) < entries.len()
            && entries[find_name(entries, name)].0@ == name),
        find_name(entries, name) == -1 <==> (forall|i: int|
            0 <= i < entries.len() ==> entries[i].0@ != name),
        forall|i: int| 0 <= i < find_name(entries, name) ==> entries[i].0@ != name,
    decreases entries.len(),
{
    if entries.len() > 0 && entries[0].0@ != name {
        lemma_find_name(entries.drop_first(), name);
        assert forall|i: int| 1 <= i < entries.len() implies entries.drop_first()[i - 1]
            == entries[i] by {}
    }
}

/// `find_name` lands on any index that holds the name and has no earlier
/// index holding it.
pub proof fn lemma_find_name_at(entries: Seq<(String, SnapShot)>, name: Seq<char>, at: int)
    requires
        0 <= at < entries.len(),
        entries[at].0@ == name,
        forall|i: int| 0 <= i < at ==> entries[i].0@ != name,
    ensures
        find_name(entries, name) == at,
    decreases entries.len(),
{
    if at > 0 {
        assert forall|i: int| 0 <= i < at - 1 implies entries.drop_first()[i].0@ != name by {
            assert(entries.drop_first()[i] == entries[i + 1]);
        }
        assert(entries.drop_first()[at - 1] == entries[at]);
        lemma_find_name_at(entries.drop_first(), name, at - 1);
    }
}

/// Both stores bind the name the same way: held in one exactly when held in
/// the other, and with the same keyframes.
pub open spec fn store_unchanged(a: SnapshotStore, b: SnapshotStore, name: Seq<char>) -> bool {
    &&& (b.contains_name(name) <==> a.contains_name(name))
    &&& (a.contains_name(name) ==> b.spec_get(name) == a.spec_get(name))
}

/// The store binds the name to a fresh seed snapshot.
pub open spec fn seeded(store: SnapshotStore, name: Seq<char>) -> bool {
    &&& store.contains_name(name)
    &&& store.spec_get(name).len() == 1
    &&& store.spec_get(name)[0].0@ == seq![0i32, 0i32, 0i32, 0i32, 0i32, 0i32]
    &&& store.spec_get(name)[0].1 == 0
}

impl SnapShot {
    /// A fresh snapshot holding only the seed frame: zeroed dial values at
    /// tick zero.
    pub fn new() -> (r: SnapShot)
        ensures
            r.frames@.len() == 1,
            r.frames@[0].0@ == seq![0i32, 0i32, 0i32, 0i32, 0i32, 0i32],
            r.frames@[0].1 == 0,
    {
        let r = SnapShot { frames: vec![([0, 0, 0, 0, 0, 0], 0)] };
        proof {
            assert(r.frames@[0].0@ =~= seq![0i32, 0i32, 0i32, 0i32, 0i32, 0i32]);
        }
        r
    }

    /// Whether the dial values changed between two frames.
    pub fn edited(previous: [i32; 6], next: [i32; 6]) -> (r: bool)
        ensures
            r <==> previous@ != next@,
    {
        let mut number: usize = 0;
        while number < 6
            invariant
                number <= 6,
                forall|i: int| 0 <= i < number ==> previous@[i] == next@[i],
            decreases 6 - number,
        {
            if previous[number] == next[number] {
                number += 1;
            } else {
                return true;
            }
        }
        proof {
            assert(previous@ =~= next@);
        }
        false
    }

    /// Stores this snapshot under the given base name, replacing any
    /// snapshot already held there. The in-memory store cannot fail; the
    /// owner of the disk copy reports its own save failures.
    pub fn save(self, store: &mut SnapshotStore, name: &str) -> (r: Option<crate::errors::Error>)
        requires
            old(store).wf(),
        ensures
            r is None,
            final(store).wf(),
            final(store).contains_name(name@),
            final(store).spec_get(name@) == self.frames@,
            forall|other: Seq<char>| other != name@ ==> (final(store).contains_name(other)
                <==> old(store).contains_name(other)),
            forall|other: Seq<char>| other != name@ && old(store).contains_name(other)
                ==> final(store).spec_get(other) == old(store).spec_get(other),
    {
        store.put(name, self);
        None
    }

    /// Stores a fresh seed snapshot under the given base name.
    pub fn create(store: &mut SnapshotStore, name: &str) -> (r: Option<crate::errors::Error>)
        requires
            old(store).wf(),
        ensures
            r is None,
            final(store).wf(),
            final(store).contains_name(name@),
            final(store).spec_get(name@).len() == 1,
            final(store).spec_get(name@)[0].0@ == seq![0i32, 0i32, 0i32, 0i32, 0i32, 0i32],
            final(store).spec_get(name@)[0].1 == 0,
            forall|other: Seq<char>| other != name@ ==> (final(store).contains_name(other)
                <==> old(store).contains_name(other)),
            forall|other: Seq<char>| other != name@ && old(store).contains_name(other)
                ==> final(store).spec_get(other) == old(store).spec_get(other),
    {
        SnapShot::new().save(store, name)
    }
}

impl SnapshotStore {
    /// Names are unique: the store maps each base name to one snapshot.
    pub open spec fn wf(self) -> bool {
        forall|i: int, j: int|
            0 <= i < j < self.entries@.len() ==> self.entries@[i].0@ != self.entries@[j].0@
    }

    /// Whether a snapshot is held under the given base name.
    pub open spec fn contains_name(self, name: Seq<char>) -> bool {
        exists|i: int| 0 <= i < self.entries@.len() && self.entries@[i].0@ == name
    }

    /// The keyframes held under the given base name.
    pub open spec fn spec_get(self, name: Seq<char>) -> Seq<([i32; 6], i32)> {
        self.entries@[find_name(self.entries@, name)].1.frames@
    }

    /// An empty store.
    pub fn new() -> (r: SnapshotStore)
        ensures
            r.wf(),
            r.entries@.len() == 0,
            forall|name: Seq<char>| !r.contains_name(name),
    {
        SnapshotStore { entries: Vec::new() }
    }

    /// Whether a snapshot is held under the given base name.
    pub fn contains(&self, name: &str) -> (r: bool)
        ensures
            r == self.contains_name(name@),
    {
        let mut i: usize = 0;
        while i < self.entries.len()
            invariant
                i <= self.entries@.len(),
                forall|j: int| 0 <= j < i ==> self.entries@[j].0@ != name@,
            decreases self.entries@.len() - i,
        {
            if str_eq(self.entries[i].0.as_str(), name) {
                return true;
            }
            i += 1;
        }
        false
    }

    /// Stores a snapshot under a base name, replacing the snapshot already
    /// held there if any.
    pub fn put(&mut self, name: &str, snapshot: SnapShot)
        requires
            old(self).wf(),
        ensures
            final(self).wf(),
            final(self).contains_name(name@),
            final(self).spec_get(name@) == snapshot.frames@,
            forall|other: Seq<char>| other != name@ ==> (final(self).contains_name(other)
                <==> old(self).contains_name(other)),
            forall|other: Seq<char>| other != name@ && old(self).contains_name(other)
                ==> final(self).spec_get(other) == old(self).spec_get(other),
    {
        let ghost before = *self;
        let mut i: usize = 0;
        while i < self.entries.len()
            invariant
                *self == before,
                before == *old(self),
                old(self).wf(),
                i <= self.entries@.len(),
                forall|j: int| 0 <= j < i ==> self.entries@[j].0@ != name@,
            decreases self.entries@.len() - i,
        {
            if str_eq(self.entries[i].0.as_str(), name) {
                let pair = (String::from_str(name), snapshot);
                self.entries[i] = pair;
                proof {
                    Self::lemma_put_update(before, *self, name@, snapshot, i as int);
                }
                return ;
            }
            i += 1;
        }
        let pair = (String::from_str(name), snapshot);
        self.entries.push(pair);
        proof {
            Self::lemma_put_append(before, *self, name@, snapshot);
        }
    }

    /// Replacing the unique entry that holds a name leaves every other name
    /// bound as before.
    proof fn lemma_put_update(
        before: SnapshotStore,
        after: SnapshotStore,
        name: Seq<char>,
        snapshot: SnapShot,
        at: int,
    )
        requires
            before.wf(),
            0 <= at < before.entries@.len(),
            before.entries@[at].0@ == name,
            forall|i: int| 0 <= i < at ==> before.entries@[i].0@ != name,
            after.entries@.len() == before.entries@.len(),
            after.entries@[at].0@ == name,
            after.entries@[at].1 == snapshot,
            forall|i: int|
                0 <= i < before.entries@.len() && i != at ==> after.entries@[i]
                    == before.entries@[i],
        ensures
            after.wf(),
            after.contains_name(name),
            after.spec_get(name) == snapshot.frames@,
            forall|other: Seq<char>| other != name ==> (after.contains_name(other)
                <==> before.contains_name(other)),
            forall|other: Seq<char>| other != name && before.contains_name(other)
                ==> after.spec_get(other) == before.spec_get(other),
    {
        assert forall|i: int, j: int| 0 <= i < j < after.entries@.len() implies after.entries@[i].0@
            != after.entries@[j].0@ by {}
        lemma_find_name_at(after.entries@, name, at);
        assert forall|other: Seq<char>| other != name implies (after.contains_name(other)
            <==> before.contains_name(other)) by {
            assert forall|i: int|
                0 <= i < before.entries@.len() implies (after.entries@[i].0@ == other
                <==> before.entries@[i].0@ == other) by {}
        }
        assert forall|other: Seq<char>| other != name && before.contains_name(other)
            implies after.spec_get(other) == before.spec_get(other) by {
            lemma_find_name(before.entries@, other);
            let fi = find_name(before.entries@, other);
            assert(fi != -1);
            assert forall|i: int| 0 <= i < fi implies after.entries@[i].0@ != other by {}
            lemma_find_name_at(after.entries@, other, fi);
        }
    }

    /// Appending an entry under a fresh name leaves every other name bound
    /// as before.
    proof fn lemma_put_append(
        before: SnapshotStore,
        after: SnapshotStore,
        name: Seq<char>,
        snapshot: SnapShot,
    )
        requires
            before.wf(),
            forall|i: int| 0 <= i < before.entries@.len() ==> before.entries@[i].0@ != name,
            after.entries@.len() == before.entries@.len() + 1,
            after.entries@[after.entries@.len() - 1].0@ == name,
            after.entries@[after.entries@.len() - 1].1 == snapshot,
            forall|i: int|
                0 <= i < before.entries@.len() ==> after.entries@[i] == before.entries@[i],
        ensures
            after.wf(),
            after.contains_name(name),
            after.spec_get(name) == snapshot.frames@,
            forall|other: Seq<char>| other != name ==> (after.contains_name(other)
                <==> before.contains_name(other)),
            forall|other: Seq<char>| other != name && before.contains_name(other)
                ==> after.spec_get(other) == before.spec_get(other),
    {
        let last = before.entries@.len() as int;
        assert forall|i: int, j: int| 0 <= i < j < after.entries@.len() implies after.entries@[i].0@
            != after.entries@[j].0@ by {}
        lemma_find_name_at(after.entries@, name, last);
        assert forall|other: Seq<char>| other != name implies (after.contains_name(other)
            <==> before.contains_name(other)) by {
            if after.contains_name(other) {
                let i = choose|i: int|
                    0 <= i < after.entries@.len() && after.entries@[i].0@ == other;
                assert(i != last);
                assert(before.entries@[i].0@ == other);
            }
        }
        assert forall|other: Seq<char>| other != name && before.contains_name(other)
            implies after.spec_get(other) == before.spec_get(other) by {
            lemma_find_name(before.entries@, other);
            let fi = find_name(before.entries@, other);
            assert(fi != -1);
            assert forall|i: int| 0 <= i < fi implies after.entries@[i].0@ != other by {}
            lemma_find_name_at(after.entries@, other, fi);
        }
    }
}

} // verus!
