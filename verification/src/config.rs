use vstd::prelude::*;

use crate::errors::Error;
use crate::variable::str_views;

verus! {

// The CLI configuration: named connection entries for databases holding
// archive data, one of which may be marked as the default. Reading and
// writing the configuration file, and applying an entry to the process
// environment, are the callers' concern; the rules about entry names and
// the default flag live here.
/// One configuration entry: the connection parameters of one database.
#[derive(Debug)]
pub struct ConfigEntry {
    pub user: String,
    pub password: String,
    pub host: String,
    pub port: String,
    pub database_name: String,
    pub is_default: bool,
}

impl Clone for ConfigEntry {
    fn clone(&self) -> (r: ConfigEntry)
        ensures
            r == *self,
    {
        ConfigEntry {
            user: self.user.clone(),
            password: self.password.clone(),
            host: self.host.clone(),
            port: self.port.clone(),
            database_name: self.database_name.clone(),
            is_default: self.is_default,
        }
    }
}

impl ConfigEntry {
    pub fn new(
        user: String,
        password: String,
        host: String,
        port: String,
        database_name: String,
        is_default: bool,
    ) -> (r: ConfigEntry)
        ensures
            r == (ConfigEntry { user, password, host, port, database_name, is_default }),
    {
        ConfigEntry { user, password, host, port, database_name, is_default }
    }

    pub fn is_default(&self) -> (r: bool)
        ensures
            r == self.is_default,
    {
        self.is_default
    }

    pub fn set_is_default(&mut self, is_default: bool)
        ensures
            *final(self) == (ConfigEntry { is_default, ..*old(self) }),
    {
        self.is_default = is_default;
    }
}

/// The names of a sequence of configuration entries.
pub open spec fn entry_names(s: Seq<(String, ConfigEntry)>) -> Seq<Seq<char>> {
    s.map_values(|p: (String, ConfigEntry)| p.0@)
}

/// The predicate keeping the entries not called `name`.
pub open spec fn entry_not_named(name: Seq<char>) -> spec_fn((String, ConfigEntry)) -> bool {
    |p: (String, ConfigEntry)| p.0@ != name
}

/// Is the entry's name different from `name`?
fn entry_keeps_name(p: &(String, ConfigEntry), name: &String) -> (b: bool)
    ensures
        b == (p.0@ != name@),
{
    !crate::text::str_eq(p.0.as_str(), name.as_str())
}

/// The CLI configuration: entries keyed by their unique names.
#[derive(Debug)]
pub struct Configuration {
    pub entries: Vec<(String, ConfigEntry)>,
}

impl Default for Configuration {
    fn default() -> (r: Configuration)
        ensures
            r.entries@.len() == 0,
    {
        Configuration { entries: Vec::new() }
    }
}

impl Configuration {
    /// The entry names are unique.
    pub open spec fn wf(self) -> bool {
        entry_names(self.entries@).no_duplicates()
    }

    /// The stored entries, in insertion order.
    pub fn entries(&self) -> (r: &Vec<(String, ConfigEntry)>)
        ensures
            r == &self.entries,
    {
        &self.entries
    }

    /// The index of the entry called `name`, if any.
    fn entry_index(&self, name: &str) -> (r: Option<usize>)
        ensures
            match r {
                Some(i) => i < self.entries@.len() && self.entries@[i as int].0@ == name@,
                None => !entry_names(self.entries@).contains(name@),
            },
    {
        let mut i: usize = 0;
        while i < self.entries.len()
            invariant
                i <= self.entries@.len(),
                forall|j: int| 0 <= j < i ==> (#[trigger] entry_names(self.entries@)[j]) != name@,
            decreases self.entries@.len() - i,
        {
            if crate::text::str_eq(self.entries[i].0.as_str(), name) {
                return Some(i);
            }
            assert(entry_names(self.entries@)[i as int] == self.entries@[i as int].0@);
            i += 1;
        }
        None
    }

    /// Stores the entry under `name`, replacing an entry of that name:
    /// the differently-named entries survive in order, followed by the
    /// new entry.
    pub fn add_entry(&mut self, name: String, entry: ConfigEntry)
        requires
            old(self).wf(),
        ensures
            final(self).wf(),
            final(self).entries@ == old(self).entries@.filter(entry_not_named(name@)).push(
                (name, entry),
            ),
            entry_names(final(self).entries@).contains(name@),
            forall|k: int|
                0 <= k < final(self).entries@.len() - 1 ==> (#[trigger] final(self).entries@[k]).0@
                    != name@ && old(self).entries@.contains(final(self).entries@[k]),
    {
        let ghost pre = *old(self);
        let _removed = crate::delete::retain_rows(
            &mut self.entries,
            &name,
            entry_keeps_name,
            Ghost(entry_not_named(name@)),
        );
        proof {
            crate::delete::lemma_filter_preserves_map_no_dup(
                pre.entries@,
                entry_not_named(name@),
                |p: (String, ConfigEntry)| p.0@,
            );
            assert(entry_names(pre.entries@) =~= pre.entries@.map_values(
                |p: (String, ConfigEntry)| p.0@,
            ));
        }
        let ghost kept = self.entries@;
        self.entries.push((name, entry));
        proof {
            assert(entry_names(self.entries@) =~= kept.map_values(
                |p: (String, ConfigEntry)| p.0@,
            ).push(name@));
            assert forall|k: int|
                0 <= k < self.entries@.len() - 1 implies (#[trigger] self.entries@[k]).0@ != name@
                && pre.entries@.contains(self.entries@[k]) by {
                assert(self.entries@[k] == kept[k]);
                assert(kept.contains(kept[k]));
                crate::sets::lemma_filter_membership(
                    pre.entries@,
                    entry_not_named(name@),
                    kept[k],
                );
                assert(kept.map_values(|p: (String, ConfigEntry)| p.0@)[k] == kept[k].0@);
            }
            assert(entry_names(self.entries@).no_duplicates()) by {
                assert forall|a: int, b: int|
                    0 <= a < b < entry_names(self.entries@).len() implies entry_names(
                    self.entries@,
                )[a] != entry_names(self.entries@)[b] by {
                    assert(entry_names(self.entries@)[a] == self.entries@[a].0@);
                    assert(entry_names(self.entries@)[b] == self.entries@[b].0@);
                    if b < self.entries@.len() - 1 {
                        assert(kept.map_values(|p: (String, ConfigEntry)| p.0@)[a]
                            == kept[a].0@);
                        assert(kept.map_values(|p: (String, ConfigEntry)| p.0@)[b]
                            == kept[b].0@);
                    }
                }
            }
            assert(entry_names(self.entries@)[self.entries@.len() - 1] == name@);
        }
    }

    /// Removes the entry called `name`; reports whether one existed.
    pub fn remove_entry(&mut self, name: &String) -> (r: bool)
        requires
            old(self).wf(),
        ensures
            final(self).wf(),
            r == entry_names(old(self).entries@).contains(name@),
            final(self).entries@ == old(self).entries@.filter(entry_not_named(name@)),
    {
        let ghost pre = *old(self);
        let existed = match self.entry_index(name.as_str()) {
            Some(i) => {
                proof {
                    assert(entry_names(self.entries@)[i as int] == self.entries@[i as int].0@);
                }
                true
            },
            None => false,
        };
        let _removed = crate::delete::retain_rows(
            &mut self.entries,
            name,
            entry_keeps_name,
            Ghost(entry_not_named(name@)),
        );
        proof {
            crate::delete::lemma_filter_preserves_map_no_dup(
                pre.entries@,
                entry_not_named(name@),
                |p: (String, ConfigEntry)| p.0@,
            );
            assert(entry_names(pre.entries@) =~= pre.entries@.map_values(
                |p: (String, ConfigEntry)| p.0@,
            ));
            assert(entry_names(self.entries@) =~= self.entries@.map_values(
                |p: (String, ConfigEntry)| p.0@,
            ));
        }
        existed
    }

    /// The first entry marked as the default, if any.
    pub fn get_default_config(&self) -> (r: Option<&(String, ConfigEntry)>)
        ensures
            match r {
                Some(p) => self.entries@.contains(*p) && p.1.is_default,
                None => forall|k: int|
                    0 <= k < self.entries@.len() ==> !(#[trigger] self.entries@[k]).1.is_default,
            },
    {
        let mut i: usize = 0;
        while i < self.entries.len()
            invariant
                i <= self.entries@.len(),
                forall|k: int| 0 <= k < i ==> !(#[trigger] self.entries@[k]).1.is_default,
            decreases self.entries@.len() - i,
        {
            if self.entries[i].1.is_default {
                assert(self.entries@.contains(self.entries@[i as int]));
                return Some(&self.entries[i]);
            }
            i += 1;
        }
        None
    }

    /// Marks the entry called `entry_name` as the default: exactly that
    /// entry's flag is set, the others stay as they are. Fails, changing
    /// nothing, exactly when an entry is already marked or no entry bears
    /// the name.
    pub fn set_as_default(&mut self, entry_name: &String) -> (r: Result<(), Error>)
        requires
            old(self).wf(),
        ensures
            final(self).wf(),
            r == Err::<(), Error>(Error::DefaultAlreadySet) <==> exists|k: int|
                0 <= k < old(self).entries@.len() && (#[trigger] old(
                    self,
                ).entries@[k]).1.is_default,
            r is Err ==> *final(self) == *old(self) && (r == Err::<(), Error>(
                Error::DefaultAlreadySet,
            ) || r == Err::<(), Error>(Error::UnknownEntry)),
            (forall|k: int|
                0 <= k < old(self).entries@.len() ==> !(#[trigger] old(
                    self,
                ).entries@[k]).1.is_default) && entry_names(old(self).entries@).contains(
                entry_name@,
            ) ==> r is Ok,
            r is Ok ==> exists|i: int|
                0 <= i < old(self).entries@.len() && (#[trigger] old(self).entries@[i]).0@
                    == entry_name@ && final(self).entries@ == old(self).entries@.update(
                    i,
                    (old(self).entries@[i].0, (ConfigEntry {
                        is_default: true,
                        ..old(self).entries@[i].1
                    })),
                ),
    {
        match self.get_default_config() {
            Some(_) => {
                return Err(Error::DefaultAlreadySet);
            },
            None => {},
        }
        let i = match self.entry_index(entry_name.as_str()) {
            Some(i) => i,
            None => {
                return Err(Error::UnknownEntry);
            },
        };
        let ghost pre = *self;
        let name_copy = self.entries[i].0.clone();
        let mut updated = self.entries[i].1.clone();
        updated.set_is_default(true);
        self.entries.set(i, (name_copy, updated));
        proof {
            assert(entry_names(self.entries@) =~= entry_names(pre.entries@));
            assert(self.entries@[i as int].0@ == entry_name@);
            assert(self.entries@[i as int].1.is_default);
            assert(self.entries@ =~= pre.entries@.update(
                i as int,
                (pre.entries@[i as int].0, (ConfigEntry {
                    is_default: true,
                    ..pre.entries@[i as int].1
                })),
            ));
        }
        Ok(())
    }
}

} // verus!
