//! The table of configuration entries, keyed by their dotted names, and the
//! manager that answers requests on it.
use vstd::prelude::*;

use crate::json::JsonValue;
use crate::rules::ValidationError;
use crate::value::{validation_outcome, ConfigValue, ConfigValueView};

verus! {

/// Whether no two entries of `s` have the same key.
pub open spec fn keys_distinct(s: Seq<(String, ConfigValue)>) -> bool {
    forall|i: int, j: int|
        0 <= i < s.len() && 0 <= j < s.len() && i != j ==> #[trigger] s[i].0@ != #[trigger] s[j].0@
}

/// Whether some entry of `s` has key `k`.
pub open spec fn has_key(s: Seq<(String, ConfigValue)>, k: Seq<char>) -> bool {
    exists|i: int| 0 <= i < s.len() && #[trigger] s[i].0@ == k
}

/// The position of an entry with key `k` in `s`.
pub open spec fn index_of(s: Seq<(String, ConfigValue)>, k: Seq<char>) -> int {
    choose|i: int| 0 <= i < s.len() && #[trigger] s[i].0@ == k
}

/// The map from keys to entries that a sequence of entries stands for.
pub open spec fn entries_map(s: Seq<(String, ConfigValue)>) -> Map<Seq<char>, ConfigValueView> {
    Map::new(|k: Seq<char>| has_key(s, k), |k: Seq<char>| s[index_of(s, k)].1@)
}

/// The entry at position `i` is the one that the map gives for its key.
proof fn lemma_entries_map_at(s: Seq<(String, ConfigValue)>, i: int)
    requires
        keys_distinct(s),
        0 <= i < s.len(),
    ensures
        entries_map(s).dom().contains(s[i].0@),
        entries_map(s)[s[i].0@] == s[i].1@,
{
    assert(has_key(s, s[i].0@));
    let j = index_of(s, s[i].0@);
    assert(s[j].0@ == s[i].0@);
}

/// Replacing the entry at a position where the key is kept updates the
/// map at that key.
proof fn lemma_entries_map_update(s: Seq<(String, ConfigValue)>, i: int, e: (String, ConfigValue))
    requires
        keys_distinct(s),
        0 <= i < s.len(),
        e.0@ == s[i].0@,
    ensures
        keys_distinct(s.update(i, e)),
        entries_map(s.update(i, e)) == entries_map(s).insert(e.0@, e.1@),
{
    let t = s.update(i, e);
    assert(keys_distinct(t)) by {
        assert forall|a: int, b: int| 0 <= a < t.len() && 0 <= b < t.len() && a != b implies
            #[trigger] t[a].0@ != #[trigger] t[b].0@ by {
            assert(t[a].0@ == s[a].0@);
            assert(t[b].0@ == s[b].0@);
        }
    }
    let m1 = entries_map(t);
    let m2 = entries_map(s).insert(e.0@, e.1@);
    assert forall|k: Seq<char>| m1.dom().contains(k) <==> m2.dom().contains(k) by {
        if has_key(t, k) {
            let j = index_of(t, k);
            assert(s[j].0@ == k);
        }
        if has_key(s, k) {
            let j = index_of(s, k);
            assert(t[j].0@ == k);
        }
    }
    assert forall|k: Seq<char>| #[trigger] m1.dom().contains(k) implies m1[k] == m2[k] by {
        let j = index_of(t, k);
        assert(t[j].0@ == k);
        if k == e.0@ {
            assert(j == i);
        } else {
            assert(s[j].0@ == k);
            lemma_entries_map_at(s, j);
        }
    }
    assert(m1 =~= m2);
}

/// Appending an entry with a new key adds that key to the map.
proof fn lemma_entries_map_push(s: Seq<(String, ConfigValue)>, e: (String, ConfigValue))
    requires
        keys_distinct(s),
        !has_key(s, e.0@),
    ensures
        keys_distinct(s.push(e)),
        entries_map(s.push(e)) == entries_map(s).insert(e.0@, e.1@),
{
    let t = s.push(e);
    assert(keys_distinct(t)) by {
        assert forall|a: int, b: int| 0 <= a < t.len() && 0 <= b < t.len() && a != b implies
            #[trigger] t[a].0@ != #[trigger] t[b].0@ by {
            if a == s.len() {
                assert(s[b].0@ == t[b].0@);
            } else if b == s.len() {
                assert(s[a].0@ == t[a].0@);
            } else {
                assert(s[a] == t[a]);
                assert(s[b] == t[b]);
            }
        }
    }
    let m1 = entries_map(t);
    let m2 = entries_map(s).insert(e.0@, e.1@);
    assert forall|k: Seq<char>| m1.dom().contains(k) <==> m2.dom().contains(k) by {
        if has_key(t, k) {
            let j = index_of(t, k);
            if j < s.len() {
                assert(s[j].0@ == k);
            }
        }
        if has_key(s, k) {
            let j = index_of(s, k);
            assert(t[j].0@ == k);
        }
        if k == e.0@ {
            assert(t[s.len() as int].0@ == k);
        }
    }
    assert forall|k: Seq<char>| #[trigger] m1.dom().contains(k) implies m1[k] == m2[k] by {
        let j = index_of(t, k);
        assert(t[j].0@ == k);
        if k == e.0@ {
            if j < s.len() {
                assert(s[j].0@ == k);
            }
            assert(j == s.len());
        } else {
            assert(j < s.len());
            assert(s[j] == t[j]);
            lemma_entries_map_at(s, j);
        }
    }
    assert(m1 =~= m2);
}

/// Entries with distinct keys stand for a finite map with one key per entry.
proof fn lemma_entries_map_len(s: Seq<(String, ConfigValue)>)
    requires
        keys_distinct(s),
    ensures
        entries_map(s).dom().finite(),
        entries_map(s).dom().len() == s.len(),
    decreases s.len(),
{
    if s.len() == 0 {
        assert(entries_map(s).dom() =~= Set::<Seq<char>>::empty());
    } else {
        let t = s.drop_last();
        assert(keys_distinct(t)) by {
            assert forall|a: int, b: int| 0 <= a < t.len() && 0 <= b < t.len() && a != b implies
                #[trigger] t[a].0@ != #[trigger] t[b].0@ by {
                assert(t[a] == s[a]);
                assert(t[b] == s[b]);
            }
        }
        assert(!has_key(t, s.last().0@)) by {
            if has_key(t, s.last().0@) {
                let j = index_of(t, s.last().0@);
                assert(t[j] == s[j]);
                assert(s[j].0@ == s[s.len() - 1].0@);
            }
        }
        lemma_entries_map_len(t);
        lemma_entries_map_push(t, s.last());
        assert(t.push(s.last()) == s);
    }
}

/// A set of configuration entries with distinct keys.
pub struct ConfigTable {
    entries: Vec<(String, ConfigValue)>,
}

impl View for ConfigTable {
    type V = Map<Seq<char>, ConfigValueView>;

    closed spec fn view(&self) -> Map<Seq<char>, ConfigValueView> {
        entries_map(self.entries@)
    }
}

impl ConfigTable {
    #[verifier::type_invariant]
    closed spec fn wf(self) -> bool {
        keys_distinct(self.entries@)
    }

    /// An empty table.
    pub fn new() -> (t: ConfigTable)
        ensures
            t@ == Map::<Seq<char>, ConfigValueView>::empty(),
    {
        let t = ConfigTable { entries: Vec::new() };
        assert(t@ =~= Map::<Seq<char>, ConfigValueView>::empty());
        t
    }

    /// The position of the entry with key `key`, if there is one.
    fn find(&self, key: &String) -> (r: Option<usize>)
        ensures
            match r {
                Some(i) => i < self.entries@.len() && self.entries@[i as int].0@ == key@,
                None => !has_key(self.entries@, key@),
            },
    {
        self_find(&self.entries, key)
    }

    /// The keys of all entries, each once.
    pub fn keys(&self) -> (r: Vec<String>)
        ensures
            enumerates_keys(r@, self@),
    {
        proof {
            use_type_invariant(self);
        }
        let entries = &self.entries;
        let n = entries.len();
        let mut r: Vec<String> = Vec::new();
        let mut i: usize = 0;
        while i < n
            invariant
                n == entries@.len(),
                i <= n,
                r@.len() == i,
                forall|j: int| 0 <= j < i ==> #[trigger] r@[j]@ == entries@[j].0@,
            decreases n - i,
        {
            r.push(entries[i].0.clone());
            i = i + 1;
        }
        proof {
            let s = entries@;
            assert forall|j: int| 0 <= j < r@.len() implies self@.dom().contains(#[trigger] r@[j]@) by {
                assert(r@[j]@ == s[j].0@);
                assert(has_key(s, s[j].0@));
            }
            assert forall|k: Seq<char>| #[trigger] self@.dom().contains(k) implies
                exists|j: int| 0 <= j < r@.len() && r@[j]@ == k by {
                let j = index_of(s, k);
                assert(r@[j]@ == k);
            }
            assert forall|a: int, b: int| 0 <= a < r@.len() && 0 <= b < r@.len() && a != b implies
                #[trigger] r@[a]@ != #[trigger] r@[b]@ by {
                assert(r@[a]@ == s[a].0@);
                assert(r@[b]@ == s[b].0@);
            }
        }
        r
    }

    /// The number of entries.
    pub fn len(&self) -> (n: usize)
        ensures
            self@.dom().finite(),
            n == self@.dom().len(),
    {
        proof {
            use_type_invariant(self);
            lemma_entries_map_len(self.entries@);
        }
        self.entries.len()
    }

    /// Whether the table has an entry with key `key`.
    pub fn contains_key(&self, key: &str) -> (b: bool)
        ensures
            b == self@.dom().contains(key@),
    {
        let k = key.to_string();
        let r = self.find(&k);
        r.is_some()
    }

    /// The entry with key `key`, if there is one.
    pub fn get(&self, key: &str) -> (r: Option<&ConfigValue>)
        ensures
            match r {
                Some(v) => self@.dom().contains(key@) && v@ == self@[key@],
                None => !self@.dom().contains(key@),
            },
    {
        proof {
            use_type_invariant(self);
        }
        let k = key.to_string();
        match self.find(&k) {
            Some(i) => {
                proof {
                    lemma_entries_map_at(self.entries@, i as int);
                }
                Some(&self.entries[i].1)
            },
            None => None,
        }
    }

    /// Sets the entry for `key` to `value`, replacing any entry it had.
    pub fn insert(&mut self, key: String, value: ConfigValue)
        ensures
            final(self)@ == old(self)@.insert(key@, value@),
    {
        proof {
            use_type_invariant(&*self);
        }
        let mut entries: Vec<(String, ConfigValue)> = Vec::new();
        std::mem::swap(&mut entries, &mut self.entries);
        let ghost before = entries@;
        match self_find(&entries, &key) {
            Some(i) => {
                let ghost e = (key, value);
                proof {
                    lemma_entries_map_update(before, i as int, e);
                }
                entries.set(i, (key, value));
                assert(entries@ == before.update(i as int, e));
            },
            None => {
                let ghost e = (key, value);
                proof {
                    lemma_entries_map_push(before, e);
                }
                entries.push((key, value));
                assert(entries@ == before.push(e));
            },
        }
        self.entries = entries;
    }
}

/// The position of the entry with key `key` in `entries`, if there is one.
fn self_find(entries: &Vec<(String, ConfigValue)>, key: &String) -> (r: Option<usize>)
    ensures
        match r {
            Some(i) => i < entries@.len() && entries@[i as int].0@ == key@,
            None => !has_key(entries@, key@),
        },
{
    let n = entries.len();
    let mut i: usize = 0;
    while i < n
        invariant
            n == entries@.len(),
            i <= n,
            forall|j: int| 0 <= j < i ==> #[trigger] entries@[j].0@ != key@,
        decreases n - i,
    {
        if entries[i].0 == *key {
            return Some(i);
        }
        i = i + 1;
    }
    None
}

/// What can go wrong in a request to the manager or in loading a document.
#[derive(Debug, PartialEq, Eq)]
pub enum ConfigError {
    /// The document's format is not supported.
    InvalidFormat(String),
    /// A part of the document could not be read as a configuration value.
    Parse(String),
    /// The entry with the key failed validation.
    Validation(String, ValidationError),
}

/// Whether `keys` lists every key of `m` exactly once and nothing else.
pub open spec fn enumerates_keys(keys: Seq<String>, m: Map<Seq<char>, ConfigValueView>) -> bool {
    &&& forall|i: int| 0 <= i < keys.len() ==> m.dom().contains(#[trigger] keys[i]@)
    &&& forall|k: Seq<char>| #[trigger] m.dom().contains(k) ==> exists|i: int| 0 <= i < keys.len() && keys[i]@ == k
    &&& forall|i: int, j: int| 0 <= i < keys.len() && 0 <= j < keys.len() && i != j ==> #[trigger] keys[i]@ != #[trigger] keys[j]@
}

/// Whether `pairs` lists every key of `m` exactly once, each with the value
/// that `m` holds for it, and nothing else.
pub open spec fn enumerates_values(pairs: Seq<(String, &JsonValue)>, m: Map<Seq<char>, ConfigValueView>) -> bool {
    &&& forall|i: int| 0 <= i < pairs.len() ==> m.dom().contains(#[trigger] pairs[i].0@)
    &&& forall|i: int| 0 <= i < pairs.len() ==> *(#[trigger] pairs[i]).1 == m[pairs[i].0@].value
    &&& forall|k: Seq<char>| #[trigger] m.dom().contains(k) ==> exists|i: int| 0 <= i < pairs.len() && pairs[i].0@ == k
    &&& forall|i: int, j: int| 0 <= i < pairs.len() && 0 <= j < pairs.len() && i != j ==> #[trigger] pairs[i].0@ != #[trigger] pairs[j].0@
}

/// Whether every entry of `m` passes validation.
pub open spec fn all_valid(m: Map<Seq<char>, ConfigValueView>) -> bool {
    forall|k: Seq<char>| #[trigger] m.dom().contains(k) ==> validation_outcome(m[k]) is None
}

/// Something that wants to hear about changes to the configuration.
pub trait ConfigWatcher {
    fn on_config_change(&self, key: &str, new_value: &ConfigValue);

    fn on_config_removed(&self, key: &str);

    fn on_validation_error(&self, key: &str, error: &ValidationError);
}

/// Holds the configuration entries of an application.
pub struct ConfigManager {
    configs: ConfigTable,
    /// What a key without an entry reads as: `null`.
    absent: JsonValue,
}

impl View for ConfigManager {
    type V = Map<Seq<char>, ConfigValueView>;

    closed spec fn view(&self) -> Map<Seq<char>, ConfigValueView> {
        self.configs@
    }
}

impl ConfigManager {
    #[verifier::type_invariant]
    closed spec fn absent_is_null(self) -> bool {
        self.absent is Null
    }

    /// A manager with no entries.
    pub fn new() -> (m: ConfigManager)
        ensures
            m@ == Map::<Seq<char>, ConfigValueView>::empty(),
    {
        ConfigManager { configs: ConfigTable::new(), absent: JsonValue::Null }
    }

    /// Adds every entry of `configs`, replacing entries with the same key.
    pub fn update_configurations(&mut self, configs: ConfigTable) -> (r: Result<(), ConfigError>)
        ensures
            r is Ok,
            final(self)@ == old(self)@.union_prefer_right(configs@),
    {
        proof {
            use_type_invariant(&configs);
            use_type_invariant(&*self);
        }
        let ghost start = self@;
        let ghost src = configs.entries@;
        let ConfigTable { entries } = configs;
        let mut table = ConfigTable::new();
        std::mem::swap(&mut table, &mut self.configs);
        for e in it: entries
            invariant
                src == entries@,
                keys_distinct(src),
                it.seq() == src,
                table@ == start.union_prefer_right(entries_map(src.take(it.index() as int))),
        {
            let ghost i = it.index() as int;
            proof {
                assert(src[i] == e);
                assert(src.take(i + 1) == src.take(i).push(e));
                assert(keys_distinct(src.take(i))) by {
                    assert forall|a: int, b: int| 0 <= a < i && 0 <= b < i && a != b implies
                        #[trigger] src.take(i)[a].0@ != #[trigger] src.take(i)[b].0@ by {
                        assert(src.take(i)[a] == src[a]);
                        assert(src.take(i)[b] == src[b]);
                    }
                }
                assert(!has_key(src.take(i), e.0@)) by {
                    if has_key(src.take(i), e.0@) {
                        let j = index_of(src.take(i), e.0@);
                        assert(src.take(i)[j] == src[j]);
                    }
                }
                lemma_entries_map_push(src.take(i), e);
                let m = entries_map(src.take(i));
                assert(start.union_prefer_right(m.insert(e.0@, e.1@))
                    =~= start.union_prefer_right(m).insert(e.0@, e.1@));
            }
            let (k, v) = e;
            table.insert(k, v);
        }
        self.configs = table;
        proof {
            assert(src.take(src.len() as int) == src);
        }
        Ok(())
    }

    /// The value of the entry with key `key`; a key without an entry reads
    /// as `null`. A read never fails.
    pub fn get(&self, key: &str) -> (r: Result<&JsonValue, ConfigError>)
        ensures
            r matches Ok(v) && (if self@.dom().contains(key@) {
                *v == self@[key@].value
            } else {
                *v is Null
            }),
    {
        proof {
            use_type_invariant(self);
        }
        match self.configs.get(key) {
            Some(cv) => Ok(&cv.value),
            None => Ok(&self.absent),
        }
    }

    /// Sets the entry for `key`, replacing any entry it had.
    pub fn set(&mut self, key: String, value: ConfigValue) -> (r: Result<(), ConfigError>)
        ensures
            r is Ok,
            final(self)@ == old(self)@.insert(key@, value@),
    {
        proof {
            use_type_invariant(&*self);
        }
        let mut configs = ConfigTable::new();
        std::mem::swap(&mut configs, &mut self.configs);
        configs.insert(key, value);
        self.configs = configs;
        Ok(())
    }

    /// Whether an entry has key `key`.
    pub fn has(&self, key: &str) -> (b: bool)
        ensures
            b == self@.dom().contains(key@),
    {
        self.configs.contains_key(key)
    }

    /// Registers a watcher. Watchers are not called by this manager; the
    /// entries stay as they are.
    pub fn add_watcher(&mut self, _watcher: Box<dyn ConfigWatcher>)
        ensures
            final(self)@ == old(self)@,
    {
    }

    /// The keys of all entries, each once.
    pub fn keys(&self) -> (r: Vec<String>)
        ensures
            enumerates_keys(r@, self@),
    {
        self.configs.keys()
    }

    /// The key and value of every entry, each once: what an export of the
    /// configuration consists of.
    pub fn export_entries(&self) -> (r: Vec<(String, &JsonValue)>)
        ensures
            enumerates_values(r@, self@),
    {
        proof {
            use_type_invariant(&self.configs);
        }
        let entries = &self.configs.entries;
        let n = entries.len();
        let mut r: Vec<(String, &JsonValue)> = Vec::new();
        let mut i: usize = 0;
        while i < n
            invariant
                n == entries@.len(),
                i <= n,
                r@.len() == i,
                forall|j: int| 0 <= j < i ==> #[trigger] r@[j].0@ == entries@[j].0@,
                forall|j: int| 0 <= j < i ==> *(#[trigger] r@[j]).1 == entries@[j].1.value,
            decreases n - i,
        {
            r.push((entries[i].0.clone(), &entries[i].1.value));
            i = i + 1;
        }
        proof {
            let s = entries@;
            assert forall|j: int| 0 <= j < r@.len() implies self@.dom().contains(#[trigger] r@[j].0@)
                && *r@[j].1 == self@[r@[j].0@].value by {
                lemma_entries_map_at(s, j);
            }
            assert forall|k: Seq<char>| #[trigger] self@.dom().contains(k) implies
                exists|j: int| 0 <= j < r@.len() && r@[j].0@ == k by {
                let j = index_of(s, k);
                assert(r@[j].0@ == k);
            }
            assert forall|a: int, b: int| 0 <= a < r@.len() && 0 <= b < r@.len() && a != b implies
                #[trigger] r@[a].0@ != #[trigger] r@[b].0@ by {
                assert(r@[a].0@ == s[a].0@);
                assert(r@[b].0@ == s[b].0@);
            }
        }
        r
    }

    /// Validates every entry and reports an entry that fails.
    pub fn validate_all(&self) -> (r: Result<(), ConfigError>)
        ensures
            match r {
                Ok(()) => all_valid(self@),
                Err(ConfigError::Validation(k, e)) => self@.dom().contains(k@)
                    && validation_outcome(self@[k@]) == Some(e@),
                Err(_) => false,
            },
    {
        proof {
            use_type_invariant(&self.configs);
        }
        let entries = &self.configs.entries;
        let n = entries.len();
        let mut i: usize = 0;
        while i < n
            invariant
                n == entries@.len(),
                i <= n,
                keys_distinct(entries@),
                self@ == entries_map(entries@),
                forall|j: int| 0 <= j < i ==> validation_outcome(#[trigger] entries@[j].1@) is None,
            decreases n - i,
        {
            match entries[i].1.validate() {
                Ok(()) => {},
                Err(e) => {
                    proof {
                        lemma_entries_map_at(entries@, i as int);
                    }
                    return Err(ConfigError::Validation(entries[i].0.clone(), e));
                },
            }
            i = i + 1;
        }
        proof {
            let s = entries@;
            assert forall|k: Seq<char>| #[trigger] self@.dom().contains(k) implies
                validation_outcome(self@[k]) is None by {
                let j = index_of(s, k);
                lemma_entries_map_at(s, j);
                assert(validation_outcome(s[j].1@) is None);
            }
        }
        Ok(())
    }
}

/// The message that reports an error of the manager.
pub open spec fn config_error_message(e: ConfigError) -> Seq<char> {
    match e {
        ConfigError::InvalidFormat(m) => m@,
        ConfigError::Parse(m) => m@,
        ConfigError::Validation(k, v) => "Validation error in "@ + k@ + ": "@ + crate::rules::validation_message(v@),
    }
}

impl ConfigError {
    /// The message that reports the error: see `config_error_message`.
    pub fn message(&self) -> (r: String)
        ensures
            r@ == config_error_message(*self),
    {
        match self {
            ConfigError::InvalidFormat(m) => m.clone(),
            ConfigError::Parse(m) => m.clone(),
            ConfigError::Validation(k, v) => {
                let mut r = "Validation error in ".to_string();
                r.append(k.as_str());
                r.append(": ");
                let m = v.message();
                r.append(m.as_str());
                r
            },
        }
    }
}

} // verus!
