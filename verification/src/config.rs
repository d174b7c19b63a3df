//! The entries of the configuration file: database credentials and custom keys.

use vstd::prelude::*;
use crate::text::string_from;

verus! {

/// An entry of the configuration file.
pub enum ConfigItem {
    DatabaseUser,
    DatabasePassword,
    Custom(String),
}

/// The key under which an entry is stored.
pub open spec fn config_key(item: ConfigItem) -> Seq<char> {
    match item {
        ConfigItem::DatabaseUser => "db_user"@,
        ConfigItem::DatabasePassword => "db_password"@,
        ConfigItem::Custom(s) => s@,
    }
}

impl ConfigItem {
    /// The key under which the entry is stored.
    pub fn as_key(self) -> (key: String)
        ensures
            key@ == config_key(self),
    {
        match self {
            ConfigItem::DatabaseUser => string_from("db_user"),
            ConfigItem::DatabasePassword => string_from("db_password"),
            ConfigItem::Custom(s) => s,
        }
    }
}

/// The preferences of the tool: string values stored under string keys.
///
/// The entries are held as a list of pairs whose keys are distinct. vstd specifies
/// `HashMap` only for key types whose hashing it models, and `String` is not among
/// them, so a `HashMap<String, String>` here would carry no provable contents.
pub struct PrefMap {
    entries: Vec<(String, String)>,
}

/// The keys of a list of entries.
pub open spec fn entry_keys(entries: Seq<(String, String)>) -> Seq<Seq<char>> {
    entries.map_values(|e: (String, String)| e.0@)
}

/// The map that a list of entries with distinct keys stands for.
pub open spec fn entries_map(entries: Seq<(String, String)>) -> Map<Seq<char>, Seq<char>>
    decreases entries.len(),
{
    if entries.len() == 0 {
        Map::empty()
    } else {
        entries_map(entries.drop_last()).insert(entries.last().0@, entries.last().1@)
    }
}

proof fn lemma_entries_map_lookup(entries: Seq<(String, String)>, i: int)
    requires
        entry_keys(entries).no_duplicates(),
        0 <= i < entries.len(),
    ensures
        entries_map(entries).contains_key(entries[i].0@),
        entries_map(entries)[entries[i].0@] == entries[i].1@,
    decreases entries.len(),
{
    if i < entries.len() - 1 {
        assert(entry_keys(entries.drop_last()) == entry_keys(entries).drop_last());
        assert(entries.drop_last()[i] == entries[i]);
        lemma_entries_map_lookup(entries.drop_last(), i);
        assert(entry_keys(entries)[i] != entry_keys(entries)[entries.len() - 1]);
    }
}

proof fn lemma_entries_map_absent(entries: Seq<(String, String)>, k: Seq<char>)
    requires
        !entry_keys(entries).contains(k),
    ensures
        !entries_map(entries).contains_key(k),
    decreases entries.len(),
{
    if entries.len() > 0 {
        assert(entry_keys(entries.drop_last()) == entry_keys(entries).drop_last());
        if entry_keys(entries.drop_last()).contains(k) {
            let j = choose|j: int| 0 <= j < entry_keys(entries.drop_last()).len() && entry_keys(entries.drop_last())[j] == k;
            assert(entry_keys(entries)[j] == k);
        }
        lemma_entries_map_absent(entries.drop_last(), k);
        assert(entry_keys(entries)[entries.len() - 1] == entries.last().0@);
    }
}

proof fn lemma_entries_map_update(entries: Seq<(String, String)>, i: int, value: String)
    requires
        0 <= i < entries.len(),
        entry_keys(entries).no_duplicates(),
    ensures
        entries_map(entries.update(i, (entries[i].0, value))) == entries_map(entries).insert(
            entries[i].0@,
            value@,
        ),
    decreases entries.len(),
{
    let u = entries.update(i, (entries[i].0, value));
    let k = entries[i].0@;
    if i == entries.len() - 1 {
        assert(u.drop_last() == entries.drop_last());
        assert(entries_map(u) =~= entries_map(entries).insert(k, value@));
    } else {
        assert(u.drop_last() == entries.drop_last().update(i, (entries[i].0, value)));
        assert(entry_keys(entries.drop_last()) == entry_keys(entries).drop_last());
        assert(entries.drop_last()[i] == entries[i]);
        lemma_entries_map_update(entries.drop_last(), i, value);
        assert(entry_keys(entries)[i] != entry_keys(entries)[entries.len() - 1]);
        assert(entries_map(u) =~= entries_map(entries).insert(k, value@));
    }
}

/// Position of the entry stored under `key`, if any.
fn find_entry(entries: &Vec<(String, String)>, key: &String) -> (r: Option<usize>)
    ensures
        match r {
            Some(i) => i < entries@.len() && entries@[i as int].0@ == key@,
            None => !entry_keys(entries@).contains(key@),
        },
{
    let mut i: usize = 0;
    while i < entries.len()
        invariant
            i <= entries@.len(),
            forall|k: int| 0 <= k < i ==> entries@[k].0@ != key@,
        decreases entries@.len() - i,
    {
        if entries[i].0 == *key {
            return Some(i);
        }
        i += 1;
    }
    proof {
        if entry_keys(entries@).contains(key@) {
            let k = choose|k: int| 0 <= k < entry_keys(entries@).len() && entry_keys(entries@)[k] == key@;
            assert(entries@[k].0@ == key@);
        }
    }
    None
}


impl View for PrefMap {
    type V = Map<Seq<char>, Seq<char>>;

    closed spec fn view(&self) -> Map<Seq<char>, Seq<char>> {
        entries_map(self.entries@)
    }
}

impl PrefMap {
    /// No key is stored twice.
    #[verifier::type_invariant]
    spec fn keys_distinct(self) -> bool {
        entry_keys(self.entries@).no_duplicates()
    }

    /// Preferences without entries.
    pub fn new() -> (m: PrefMap)
        ensures
            m@ == Map::<Seq<char>, Seq<char>>::empty(),
    {
        let m = PrefMap { entries: Vec::new() };
        proof {
            assert(entry_keys(m.entries@) =~= Seq::<Seq<char>>::empty());
        }
        m
    }

    /// Stores `value` under `key`, replacing what was stored there.
    pub fn insert(&mut self, key: String, value: String)
        ensures
            final(self)@ == old(self)@.insert(key@, value@),
    {
        proof {
            use_type_invariant(&*self);
        }
        let ghost before = self.entries@;
        let mut entries: Vec<(String, String)> = Vec::new();
        std::mem::swap(&mut entries, &mut self.entries);
        match find_entry(&entries, &key) {
            Some(i) => {
                proof {
                    lemma_entries_map_update(before, i as int, value);
                    assert(before[i as int].0@ == key@);
                    let u = before.update(i as int, (before[i as int].0, value));
                    assert(entry_keys(u) =~= entry_keys(before));
                }
                let stored_key = entries[i].0.clone();
                entries.set(i, (stored_key, value));
            },
            None => {
                proof {
                    assert(entry_keys(before.push((key, value))) =~= entry_keys(before).push(key@));
                    assert(before.push((key, value)).drop_last() == before);
                }
                entries.push((key, value));
            },
        }
        self.entries = entries;
    }

    /// The value stored under `key`, if any.
    pub fn get(&self, key: &String) -> (r: Option<String>)
        ensures
            match r {
                Some(v) => self@.contains_key(key@) && v@ == self@[key@],
                None => !self@.contains_key(key@),
            },
    {
        proof {
            use_type_invariant(self);
        }
        match find_entry(&self.entries, key) {
            Some(i) => {
                proof {
                    lemma_entries_map_lookup(self.entries@, i as int);
                }
                Some(self.entries[i].1.clone())
            },
            None => {
                proof {
                    lemma_entries_map_absent(self.entries@, key@);
                }
                None
            },
        }
    }

    /// The entries, each key once, in no particular order.
    pub fn into_pairs(self) -> (pairs: Vec<(String, String)>)
        ensures
            entry_keys(pairs@).no_duplicates(),
            entries_map(pairs@) == self@,
    {
        proof {
            use_type_invariant(&self);
        }
        self.entries
    }
}

/// The entry `item` of the configuration, if it is set.
pub fn get(prefs: &PrefMap, item: ConfigItem) -> (value: Option<String>)
    ensures
        match value {
            Some(v) => prefs@.contains_key(config_key(item)) && v@ == prefs@[config_key(item)],
            None => !prefs@.contains_key(config_key(item)),
        },
{
    let key = item.as_key();
    prefs.get(&key)
}

/// The preferences with the default database credentials set.
pub open spec fn with_defaults(prefs: Map<Seq<char>, Seq<char>>) -> Map<Seq<char>, Seq<char>> {
    prefs.insert("db_user"@, "root"@).insert("db_password"@, "pw"@)
}

/// Sets the database credentials to their defaults.
pub fn set_to_default(pref: &mut PrefMap)
    ensures
        final(pref)@ == with_defaults(old(pref)@),
{
    pref.insert(ConfigItem::DatabaseUser.as_key(), string_from("root"));
    pref.insert(ConfigItem::DatabasePassword.as_key(), string_from("pw"));
}

/// Once the defaults are set, reading the database credentials gives the defaults.
pub proof fn lemma_defaults_readable(prefs: Map<Seq<char>, Seq<char>>)
    ensures
        with_defaults(prefs).contains_key(config_key(ConfigItem::DatabaseUser)),
        with_defaults(prefs)[config_key(ConfigItem::DatabaseUser)] == "root"@,
        with_defaults(prefs).contains_key(config_key(ConfigItem::DatabasePassword)),
        with_defaults(prefs)[config_key(ConfigItem::DatabasePassword)] == "pw"@,
{
    reveal_strlit("db_user");
    reveal_strlit("db_password");
    assert("db_user"@ != "db_password"@) by {
        assert("db_user"@.len() != "db_password"@.len());
    }
}

} // verus!
