//! The directory of who is online: for each username the delivery handle of
//! the session that is logged in under it.

use crate::common::text::same_text;
use vstd::prelude::*;

verus! {

/// What a directory holds: pairs of a username and the delivery handle of
/// the session that is online under it, in the order in which the directory
/// lists them.
pub type Entries = Seq<(Seq<char>, u64)>;

/// No username stands in two entries.
pub open spec fn distinct_names(entries: Entries) -> bool {
    forall|i: int, j: int|
        0 <= i < j < entries.len() ==> (#[trigger] entries[i]).0 != (#[trigger] entries[j]).0
}

/// `name` has an entry.
pub open spec fn has_name(entries: Entries, name: Seq<char>) -> bool {
    exists|i: int| 0 <= i < entries.len() && (#[trigger] entries[i]).0 == name
}

/// Where the entry of `name` stands, if it has one.
pub open spec fn slot_of(entries: Entries, name: Seq<char>) -> int {
    choose|i: int| 0 <= i < entries.len() && (#[trigger] entries[i]).0 == name
}

/// The handle under which `name` is online, if it is.
pub open spec fn lookup(entries: Entries, name: Seq<char>) -> Option<u64> {
    if has_name(entries, name) {
        Some(entries[slot_of(entries, name)].1)
    } else {
        None
    }
}

/// The entries after `name` came online under `handle`: its entry is
/// replaced where it had one, and added at the end where it had none.
pub open spec fn registered(entries: Entries, name: Seq<char>, handle: u64) -> Entries {
    if has_name(entries, name) {
        entries.update(slot_of(entries, name), (name, handle))
    } else {
        entries.push((name, handle))
    }
}

/// The entries after `name` went offline: its entry is gone where it had
/// one, and the others keep their order.
pub open spec fn unregistered(entries: Entries, name: Seq<char>) -> Entries {
    if has_name(entries, name) {
        entries.remove(slot_of(entries, name))
    } else {
        entries
    }
}

/// One user that is online.
struct Registration {
    username: String,
    handle: u64,
}

/// Who is online: for each username at most one delivery handle.
pub struct Directory {
    entries: Vec<Registration>,
}

impl View for Directory {
    type V = Entries;

    closed spec fn view(&self) -> Entries {
        self.entries@.map_values(|entry: Registration| (entry.username@, entry.handle))
    }
}

impl Directory {
    /// What holds of every directory: no username has two entries.
    #[verifier::type_invariant]
    pub open spec fn names_are_distinct(&self) -> bool {
        distinct_names(self@)
    }

    /// A directory with nobody online.
    pub fn new() -> (directory: Self)
        ensures
            directory@ == Seq::<(Seq<char>, u64)>::empty(),
    {
        let directory = Directory { entries: Vec::new() };
        assert(directory@ =~= Seq::<(Seq<char>, u64)>::empty());
        directory
    }

    /// How many users are online.
    pub fn len(&self) -> (count: usize)
        ensures
            count == self@.len(),
    {
        self.entries.len()
    }

    /// Where the entry of `username` stands.
    fn position(&self, username: &str) -> (found: Option<usize>)
        ensures
            distinct_names(self@),
            match found {
                Some(index) => has_name(self@, username@) && index == slot_of(
                    self@,
                    username@,
                ),
                None => !has_name(self@, username@),
            },
    {
        proof {
            use_type_invariant(self);
        }
        let mut index: usize = 0;
        while index < self.entries.len()
            invariant
                index <= self.entries.len(),
                distinct_names(self@),
                forall|i: int| 0 <= i < index ==> (#[trigger] self@[i]).0 != username@,
            decreases self.entries.len() - index,
        {
            if same_text(self.entries[index].username.as_str(), username) {
                assert(self@[index as int].0 == username@);
                return Some(index);
            }
            index += 1;
        }
        None
    }

    /// The handle under which `username` is online, if it is.
    pub fn lookup(&self, username: &str) -> (handle: Option<u64>)
        ensures
            handle == lookup(self@, username@),
    {
        match self.position(username) {
            Some(index) => Some(self.entries[index].handle),
            None => None,
        }
    }

    /// The usernames that are online, in the directory's order.
    pub fn usernames(&self) -> (names: Vec<String>)
        ensures
            names@.len() == self@.len(),
            forall|i: int| 0 <= i < names@.len() ==> (#[trigger] names@[i])@ == self@[i].0,
    {
        let mut names: Vec<String> = Vec::new();
        let mut index: usize = 0;
        while index < self.entries.len()
            invariant
                index <= self.entries.len(),
                names@.len() == index,
                forall|i: int| 0 <= i < index ==> (#[trigger] names@[i])@ == self@[i].0,
            decreases self.entries.len() - index,
        {
            names.push(self.entries[index].username.clone());
            index += 1;
        }
        names
    }

    /// The delivery handles of the users that are online, in the directory's
    /// order.
    pub fn handles(&self) -> (handles: Vec<u64>)
        ensures
            handles@.len() == self@.len(),
            forall|i: int| 0 <= i < handles@.len() ==> #[trigger] handles@[i] == self@[i].1,
    {
        let mut handles: Vec<u64> = Vec::new();
        let mut index: usize = 0;
        while index < self.entries.len()
            invariant
                index <= self.entries.len(),
                handles@.len() == index,
                forall|i: int| 0 <= i < index ==> #[trigger] handles@[i] == self@[i].1,
            decreases self.entries.len() - index,
        {
            handles.push(self.entries[index].handle);
            index += 1;
        }
        handles
    }
}

/// Puts `username` online under `handle`. An entry that the username
/// already had is replaced: the last registration wins.
pub fn register_user(pool: &mut Directory, username: String, handle: u64)
    ensures
        final(pool)@ == registered(old(pool)@, username@, handle),
        distinct_names(final(pool)@),
        lookup(final(pool)@, username@) == Some(handle),
        forall|other: Seq<char>|
            other != username@ ==> #[trigger] lookup(final(pool)@, other) == lookup(
                old(pool)@,
                other,
            ),
{
    let found = pool.position(username.as_str());
    proof {
        assert forall|other: Seq<char>| true implies #[trigger] lookup(
            registered(pool@, username@, handle),
            other,
        ) == if other == username@ {
            Some(handle)
        } else {
            lookup(pool@, other)
        } by {
            lemma_lookup_registered(pool@, username@, handle, other);
        }
    }
    let ghost name = username@;
    let mut entries: Vec<Registration> = Vec::new();
    core::mem::swap(&mut pool.entries, &mut entries);
    match found {
        Some(index) => {
            entries.set(index, Registration { username, handle });
        },
        None => {
            entries.push(Registration { username, handle });
        },
    }
    assert(entries@.map_values(|entry: Registration| (entry.username@, entry.handle))
        =~= registered(old(pool)@, name, handle));
    pool.entries = entries;
}

/// Takes `username` offline. Nothing happens where it is not online.
pub fn unregister_user(pool: &mut Directory, username: &str)
    ensures
        final(pool)@ == unregistered(old(pool)@, username@),
        distinct_names(final(pool)@),
        lookup(final(pool)@, username@) is None,
        forall|other: Seq<char>|
            other != username@ ==> #[trigger] lookup(final(pool)@, other) == lookup(
                old(pool)@,
                other,
            ),
{
    let found = pool.position(username);
    proof {
        assert forall|other: Seq<char>| true implies #[trigger] lookup(
            unregistered(pool@, username@),
            other,
        ) == if other == username@ {
            None
        } else {
            lookup(pool@, other)
        } by {
            lemma_lookup_unregistered(pool@, username@, other);
        }
    }
    let mut entries: Vec<Registration> = Vec::new();
    core::mem::swap(&mut pool.entries, &mut entries);
    match found {
        Some(index) => {
            entries.remove(index);
        },
        None => {},
    }
    assert(entries@.map_values(|entry: Registration| (entry.username@, entry.handle))
        =~= unregistered(old(pool)@, username@));
    pool.entries = entries;
}

/// In a directory whose names are distinct, the entry at a position is the
/// one that a lookup of its name finds.
pub proof fn lemma_lookup_finds_entry(entries: Entries, index: int)
    requires
        distinct_names(entries),
        0 <= index < entries.len(),
    ensures
        has_name(entries, entries[index].0),
        slot_of(entries, entries[index].0) == index,
        lookup(entries, entries[index].0) == Some(entries[index].1),
{
    let name = entries[index].0;
    let slot = slot_of(entries, name);
    assert(entries[slot].0 == entries[index].0);
}

/// After a registration the name is found under the new handle, every other
/// name is found as before, and still no name has two entries.
pub proof fn lemma_lookup_registered(
    entries: Entries,
    name: Seq<char>,
    handle: u64,
    other: Seq<char>,
)
    requires
        distinct_names(entries),
    ensures
        distinct_names(registered(entries, name, handle)),
        lookup(registered(entries, name, handle), other) == if other == name {
            Some(handle)
        } else {
            lookup(entries, other)
        },
{
    let after = registered(entries, name, handle);
    let at = if has_name(entries, name) {
        slot_of(entries, name)
    } else {
        entries.len() as int
    };
    assert(after[at] == (name, handle));
    assert forall|i: int| 0 <= i < after.len() && i != at implies #[trigger] after[i]
        == entries[i] && entries[i].0 != name by {
        if has_name(entries, name) && entries[i].0 == name {
            lemma_lookup_finds_entry(entries, i);
        }
    }
    assert(distinct_names(after));
    lemma_lookup_finds_entry(after, at);
    if other != name {
        if has_name(entries, other) {
            let slot = slot_of(entries, other);
            assert(after[slot] == entries[slot]);
            lemma_lookup_finds_entry(after, slot);
        } else if has_name(after, other) {
            let slot = slot_of(after, other);
            assert(entries[slot].0 == other);
        }
    }
}

/// After a name went offline it is not found, every other name is found as
/// before, and still no name has two entries.
pub proof fn lemma_lookup_unregistered(entries: Entries, name: Seq<char>, other: Seq<char>)
    requires
        distinct_names(entries),
    ensures
        distinct_names(unregistered(entries, name)),
        lookup(unregistered(entries, name), other) == if other == name {
            None
        } else {
            lookup(entries, other)
        },
{
    let after = unregistered(entries, name);
    if has_name(entries, name) {
        let at = slot_of(entries, name);
        assert forall|i: int| 0 <= i < after.len() implies #[trigger] after[i] == entries[if i
            < at {
            i
        } else {
            i + 1
        }] && after[i].0 != name by {
            let source = if i < at {
                i
            } else {
                i + 1
            };
            if entries[source].0 == name {
                lemma_lookup_finds_entry(entries, source);
            }
        }
        assert(distinct_names(after)) by {
            assert forall|i: int, j: int| 0 <= i < j < after.len() implies (#[trigger] after[i]).0
                != (#[trigger] after[j]).0 by {
                let si = if i < at {
                    i
                } else {
                    i + 1
                };
                let sj = if j < at {
                    j
                } else {
                    j + 1
                };
                assert(entries[si].0 != entries[sj].0);
            }
        }
        if other != name {
            if has_name(entries, other) {
                let slot = slot_of(entries, other);
                let target = if slot < at {
                    slot
                } else {
                    slot - 1
                };
                assert(after[target] == entries[slot]);
                lemma_lookup_finds_entry(after, target);
            } else if has_name(after, other) {
                let slot = slot_of(after, other);
                let source = if slot < at {
                    slot
                } else {
                    slot + 1
                };
                assert(entries[source].0 == other);
            }
        }
    }
}

/// One call on the directory.
pub enum DirectoryCall {
    Register { name: Seq<char>, handle: u64 },
    Unregister { name: Seq<char> },
}

/// The entries after `calls` were made one after the other, the first of
/// them on `entries`.
pub open spec fn after_calls(entries: Entries, calls: Seq<DirectoryCall>) -> Entries
    decreases calls.len(),
{
    if calls.len() == 0 {
        entries
    } else {
        let before = after_calls(entries, calls.drop_last());
        match calls.last() {
            DirectoryCall::Register { name, handle } => registered(before, name, handle),
            DirectoryCall::Unregister { name } => unregistered(before, name),
        }
    }
}

/// What the calls leave standing for `name`: the handle of the last
/// registration of the name, unless the name went offline after it, and
/// `initial` where no call speaks of the name.
pub open spec fn last_word(initial: Option<u64>, calls: Seq<DirectoryCall>, name: Seq<char>)
    -> Option<u64>
    decreases calls.len(),
{
    if calls.len() == 0 {
        initial
    } else {
        let earlier = last_word(initial, calls.drop_last(), name);
        match calls.last() {
            DirectoryCall::Register { name: called, handle } => if called == name {
                Some(handle)
            } else {
                earlier
            },
            DirectoryCall::Unregister { name: called } => if called == name {
                None
            } else {
                earlier
            },
        }
    }
}

/// Whatever registrations and removals are made, in whatever order, a name
/// never has two entries, and a lookup finds the handle of the most recent
/// registration of the name that no removal followed.
pub proof fn lemma_directory_keeps_last_registration(
    entries: Entries,
    calls: Seq<DirectoryCall>,
    name: Seq<char>,
)
    requires
        distinct_names(entries),
    ensures
        distinct_names(after_calls(entries, calls)),
        lookup(after_calls(entries, calls), name) == last_word(
            lookup(entries, name),
            calls,
            name,
        ),
    decreases calls.len(),
{
    if calls.len() > 0 {
        let before = after_calls(entries, calls.drop_last());
        lemma_directory_keeps_last_registration(entries, calls.drop_last(), name);
        match calls.last() {
            DirectoryCall::Register { name: called, handle } => {
                lemma_lookup_registered(before, called, handle, name);
            },
            DirectoryCall::Unregister { name: called } => {
                lemma_lookup_unregistered(before, called, name);
            },
        }
    }
}

} // verus!
