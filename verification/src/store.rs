//! Registry store: an in-memory hierarchical map from key paths to ordered
//! value sets, with the exact-match lookup and tombstone-based mutation rules
//! of the on-disk registry files.

use vstd::prelude::*;
use vstd::string::StringExecFns;

use crate::error::PrefixError;
use crate::model::{RegistryValue, RegistryValueV, ValueName, ValueNameV};
use crate::strutil;

verus! {

/// One slot of a key: a value name and the value stored under it.
#[derive(Debug, PartialEq, Eq)]
pub struct RegistryEntry {
    pub name: ValueName,
    pub value: RegistryValue,
}

/// A registry key: a backslash-delimited path, an ordered collection of
/// value slots, and a tombstone flag for the whole key.
#[derive(Debug, PartialEq, Eq)]
pub struct RegistryKey {
    pub path: String,
    pub deleted: bool,
    pub values: Vec<RegistryEntry>,
}

/// An in-memory registry: a mapping from key path to key, in insertion
/// order.  Key paths are case-sensitive and compared by exact equality; the
/// only supported serialization dialect is regedit5.
#[derive(Debug, PartialEq, Eq)]
pub struct Registry {
    pub keys: Vec<RegistryKey>,
}

/// Mathematical view of a [`RegistryEntry`].
#[verifier::ext_equal]
pub struct EntryV {
    pub name: ValueNameV,
    pub value: RegistryValueV,
}

/// Mathematical view of a [`RegistryKey`].
#[verifier::ext_equal]
pub struct KeyV {
    pub path: Seq<char>,
    pub deleted: bool,
    pub values: Seq<EntryV>,
}

/// Mathematical view of a [`Registry`].
#[verifier::ext_equal]
pub struct RegistryV {
    pub keys: Seq<KeyV>,
}

impl View for RegistryEntry {
    type V = EntryV;

    open spec fn view(&self) -> EntryV {
        EntryV { name: self.name@, value: self.value@ }
    }
}

impl View for RegistryKey {
    type V = KeyV;

    open spec fn view(&self) -> KeyV {
        KeyV {
            path: self.path@,
            deleted: self.deleted,
            values: Seq::new(self.values@.len(), |i: int| self.values@[i]@),
        }
    }
}

impl View for Registry {
    type V = RegistryV;

    open spec fn view(&self) -> RegistryV {
        RegistryV { keys: Seq::new(self.keys@.len(), |i: int| self.keys@[i]@) }
    }
}

/// The value names of a key are pairwise distinct.
pub open spec fn entry_names_unique(values: Seq<EntryV>) -> bool {
    forall|i: int, j: int|
        0 <= i < j < values.len() ==> #[trigger] values[i].name != #[trigger] values[j].name
}

/// The key paths of a registry are pairwise distinct.
pub open spec fn key_paths_unique(keys: Seq<KeyV>) -> bool {
    forall|i: int, j: int|
        0 <= i < j < keys.len() ==> #[trigger] keys[i].path != #[trigger] keys[j].path
}

impl KeyV {
    /// Well-formedness: value names are unique within the key.
    pub open spec fn wf(self) -> bool {
        entry_names_unique(self.values)
    }

    /// Whether the key has a slot of the given name.
    pub open spec fn has_slot(self, name: ValueNameV) -> bool {
        exists|i: int| 0 <= i < self.values.len() && #[trigger] self.values[i].name == name
    }

    /// The index of the slot of the given name.
    pub open spec fn slot_index(self, name: ValueNameV) -> int {
        choose|i: int| 0 <= i < self.values.len() && #[trigger] self.values[i].name == name
    }

    /// The value stored in the slot of the given name.
    pub open spec fn slot_value(self, name: ValueNameV) -> RegistryValueV {
        self.values[self.slot_index(name)].value
    }

    /// The key with the slot of the given name set to `value`: overwritten
    /// in place when the slot exists, appended at the end otherwise.
    pub open spec fn with_slot(self, name: ValueNameV, value: RegistryValueV) -> KeyV {
        if self.has_slot(name) {
            KeyV {
                values: self.values.update(
                    self.slot_index(name),
                    EntryV { name, value },
                ),
                ..self
            }
        } else {
            KeyV { values: self.values.push(EntryV { name, value }), ..self }
        }
    }
}

impl RegistryV {
    /// Well-formedness: key paths are unique, and every key is well-formed.
    pub open spec fn wf(self) -> bool {
        &&& key_paths_unique(self.keys)
        &&& forall|i: int| 0 <= i < self.keys.len() ==> (#[trigger] self.keys[i]).wf()
    }

    /// Whether a key with the given path exists.
    pub open spec fn has_key(self, path: Seq<char>) -> bool {
        exists|i: int| 0 <= i < self.keys.len() && #[trigger] self.keys[i].path == path
    }

    /// The index of the key with the given path.
    pub open spec fn key_index(self, path: Seq<char>) -> int {
        choose|i: int| 0 <= i < self.keys.len() && #[trigger] self.keys[i].path == path
    }

    /// The key with the given path.
    pub open spec fn key_at(self, path: Seq<char>) -> KeyV {
        self.keys[self.key_index(path)]
    }

    /// The registry with the key at `path` replaced by `key` (or `key`
    /// appended when no key of that path exists).
    pub open spec fn with_key(self, path: Seq<char>, key: KeyV) -> RegistryV {
        if self.has_key(path) {
            RegistryV { keys: self.keys.update(self.key_index(path), key) }
        } else {
            RegistryV { keys: self.keys.push(key) }
        }
    }

    /// The registry after a value is set: the slot `name` of the key at
    /// `path` holds `value`, an absent key being created on the way.
    pub open spec fn set_value_model(
        self,
        path: Seq<char>,
        name: ValueNameV,
        value: RegistryValueV,
    ) -> RegistryV {
        if self.has_key(path) {
            self.with_key(path, self.key_at(path).with_slot(name, value))
        } else {
            self.with_key(
                path,
                KeyV {
                    path,
                    deleted: false,
                    values: seq![EntryV { name, value }],
                },
            )
        }
    }

    /// The registry after a whole key is deleted: the key at `path` becomes
    /// an empty tombstoned key (created if absent).
    pub open spec fn delete_key_model(self, path: Seq<char>) -> RegistryV {
        self.with_key(path, KeyV { path, deleted: true, values: Seq::empty() })
    }

    /// The value visible at `path`/`name`, if any; tombstones are visible
    /// like any other stored value.
    pub open spec fn value_at(self, path: Seq<char>, name: ValueNameV) -> Option<RegistryValueV> {
        if self.has_key(path) && self.key_at(path).has_slot(name) {
            Some(self.key_at(path).slot_value(name))
        } else {
            None
        }
    }
}

/// The slot that a value-name string designates: the empty string and the
/// rendering `"(default)"` both stand for the default slot, every other
/// string for the named slot of that name.
pub open spec fn slot_of(name: Seq<char>) -> ValueNameV {
    if name == Seq::<char>::empty() || name == "(default)"@ {
        ValueNameV::Default
    } else {
        ValueNameV::Named(name)
    }
}

/// The string rendering of a slot name: the default slot renders as
/// `"(default)"`.
pub open spec fn render_name(name: ValueNameV) -> Seq<char> {
    match name {
        ValueNameV::Default => "(default)"@,
        ValueNameV::Named(s) => s,
    }
}

/// A value under its rendered (string) name, as returned by
/// [`WineRegistry::get_key_values`].
#[derive(Debug, PartialEq, Eq)]
pub struct NamedValue {
    pub name: String,
    pub value: RegistryValue,
}

/// Mathematical view of a [`NamedValue`].
#[verifier::ext_equal]
pub struct NamedValueV {
    pub name: Seq<char>,
    pub value: RegistryValueV,
}

impl View for NamedValue {
    type V = NamedValueV;

    open spec fn view(&self) -> NamedValueV {
        NamedValueV { name: self.name@, value: self.value@ }
    }
}

impl DeepView for NamedValue {
    type V = NamedValueV;

    open spec fn deep_view(&self) -> NamedValueV {
        self@
    }
}

impl Clone for NamedValue {
    fn clone(&self) -> (r: Self)
        ensures
            r@ == self@,
    {
        NamedValue { name: self.name.clone(), value: self.value.clone() }
    }
}

/// The slots of a key with their names rendered as strings, in order.
pub open spec fn rendered_entries(k: KeyV) -> Seq<NamedValueV> {
    Seq::new(
        k.values.len(),
        |i: int| NamedValueV { name: render_name(k.values[i].name), value: k.values[i].value },
    )
}

impl Clone for RegistryEntry {
    fn clone(&self) -> (r: Self)
        ensures
            r@ == self@,
    {
        RegistryEntry { name: self.name.clone(), value: self.value.clone() }
    }
}

impl Clone for RegistryKey {
    fn clone(&self) -> (r: Self)
        ensures
            r@ == self@,
    {
        let values = self.values.clone();
        proof {
            assert forall|i: int| 0 <= i < self.values@.len() implies values@[i]@
                == self.values@[i]@ by {
                assert(vstd::pervasive::cloned::<RegistryEntry>(self.values@[i], values@[i]));
            }
            assert(Seq::new(values@.len(), |i: int| values@[i]@) =~= Seq::new(
                self.values@.len(),
                |i: int| self.values@[i]@,
            ));
        }
        RegistryKey { path: self.path.clone(), deleted: self.deleted, values }
    }
}

impl Clone for Registry {
    fn clone(&self) -> (r: Self)
        ensures
            r@ == self@,
    {
        let keys = self.keys.clone();
        proof {
            assert forall|i: int| 0 <= i < self.keys@.len() implies keys@[i]@
                == self.keys@[i]@ by {
                assert(vstd::pervasive::cloned::<RegistryKey>(self.keys@[i], keys@[i]));
            }
            assert(Seq::new(keys@.len(), |i: int| keys@[i]@) =~= Seq::new(
                self.keys@.len(),
                |i: int| self.keys@[i]@,
            ));
        }
        Registry { keys }
    }
}

impl RegistryEntry {
    /// A slot holding `value` under `name`.
    pub fn new(name: ValueName, value: RegistryValue) -> (r: Self)
        ensures
            r@ == (EntryV { name: name@, value: value@ }),
    {
        RegistryEntry { name, value }
    }
}

impl RegistryKey {
    /// An empty, live key at the given path.
    pub fn new(path: String) -> (r: Self)
        ensures
            r@ == (KeyV { path: path@, deleted: false, values: Seq::empty() }),
            r@.wf(),
    {
        let r = RegistryKey { path, deleted: false, values: Vec::new() };
        proof {
            assert(r@.values =~= Seq::<EntryV>::empty());
        }
        r
    }

    /// The index of the slot of the given name, if present.
    pub fn find_slot(&self, name: &ValueName) -> (r: Option<usize>)
        ensures
            match r {
                Some(i) => self@.has_slot(name@) && 0 <= i < self@.values.len()
                    && self@.values[i as int].name == name@
                    && (self@.wf() ==> i == self@.slot_index(name@)),
                None => !self@.has_slot(name@),
            },
    {
        let mut i: usize = 0;
        while i < self.values.len()
            invariant
                i <= self.values@.len(),
                forall|j: int| 0 <= j < i ==> #[trigger] self@.values[j].name != name@,
        decreases self.values@.len() - i,
        {
            if self.values[i].name.same_slot(name) {
                proof {
                    assert(self@.values[i as int].name == name@);
                    if self@.wf() {
                        let k = self@.slot_index(name@);
                        assert(self@.values[k].name == name@);
                        if k != i {
                            assert(self@.values[k].name != self@.values[i as int].name);
                        }
                    }
                }
                return Some(i);
            }
            i = i + 1;
        }
        proof {
            assert(!self@.has_slot(name@));
        }
        None
    }

    /// Sets the slot `name` to `value`: overwritten in place when present,
    /// appended otherwise.
    pub fn set_slot(&mut self, name: ValueName, value: RegistryValue)
        requires
            old(self)@.wf(),
        ensures
            final(self)@ == old(self)@.with_slot(name@, value@),
            final(self)@.wf(),
    {
        let ghost old_view = self@;
        let idx = self.find_slot(&name);
        match idx {
            Some(i) => {
                self.values[i] = RegistryEntry { name, value };
                proof {
                    assert(self@ =~= old_view.with_slot(name@, value@)) by {
                        assert(self@.values =~= old_view.values.update(
                            old_view.slot_index(name@),
                            EntryV { name: name@, value: value@ },
                        ));
                    }
                    assert(self@.wf());
                }
            },
            None => {
                self.values.push(RegistryEntry { name, value });
                proof {
                    assert(self@.values =~= old_view.values.push(
                        EntryV { name: name@, value: value@ },
                    ));
                    assert(self@ =~= old_view.with_slot(name@, value@));
                    assert forall|i: int, j: int|
                        0 <= i < j < self@.values.len() implies #[trigger] self@.values[i].name
                        != #[trigger] self@.values[j].name by {
                        if j == self@.values.len() - 1 {
                            assert(!old_view.has_slot(name@));
                            assert(old_view.values[i].name != name@);
                        }
                    }
                }
            },
        }
    }
}

impl Registry {
    /// An empty registry.
    pub fn new() -> (r: Self)
        ensures
            r@.keys == Seq::<KeyV>::empty(),
            r@.wf(),
    {
        let r = Registry { keys: Vec::new() };
        proof {
            assert(r@.keys =~= Seq::<KeyV>::empty());
        }
        r
    }

    /// The index of the key with the given path, if present.
    pub fn find_key(&self, path: &str) -> (r: Option<usize>)
        ensures
            match r {
                Some(i) => self@.has_key(path@) && 0 <= i < self@.keys.len()
                    && self@.keys[i as int].path == path@
                    && (self@.wf() ==> i == self@.key_index(path@)),
                None => !self@.has_key(path@),
            },
    {
        let mut i: usize = 0;
        while i < self.keys.len()
            invariant
                i <= self.keys@.len(),
                forall|j: int| 0 <= j < i ==> #[trigger] self@.keys[j].path != path@,
        decreases self.keys@.len() - i,
        {
            if crate::strutil::str_eq(self.keys[i].path.as_str(), path) {
                proof {
                    assert(self@.keys[i as int].path == path@);
                    if self@.wf() {
                        let k = self@.key_index(path@);
                        assert(self@.keys[k].path == path@);
                        if k != i {
                            assert(self@.keys[k].path != self@.keys[i as int].path);
                        }
                    }
                }
                return Some(i);
            }
            i = i + 1;
        }
        proof {
            assert(!self@.has_key(path@));
        }
        None
    }

    /// Whether a key with the given path exists.
    pub fn has_key_path(&self, path: &str) -> (r: bool)
        ensures
            r == self@.has_key(path@),
    {
        self.find_key(path).is_some()
    }

    /// Sets the slot `name` of the key at `path` to `value`, creating the
    /// key when absent.
    pub fn set_value(&mut self, path: &str, name: ValueName, value: RegistryValue)
        requires
            old(self)@.wf(),
        ensures
            final(self)@ == old(self)@.set_value_model(path@, name@, value@),
            final(self)@.wf(),
    {
        let ghost old_view = self@;
        let idx = self.find_key(path);
        match idx {
            Some(i) => {
                let ghost old_key = self@.keys[i as int];
                let k = &mut self.keys[i];
                proof {
                    assert(old_key.wf());
                }
                k.set_slot(name, value);
                proof {
                    let new_key = old_key.with_slot(name@, value@);
                    assert(self@.keys =~= old_view.keys.update(i as int, new_key));
                    assert(self@ =~= old_view.set_value_model(path@, name@, value@));
                    assert forall|a: int, b: int|
                        0 <= a < b < self@.keys.len() implies #[trigger] self@.keys[a].path
                        != #[trigger] self@.keys[b].path by {
                        assert(old_view.keys[a].path != old_view.keys[b].path);
                    }
                    assert(self@.wf());
                }
            },
            None => {
                let mut key = RegistryKey::new(crate::strutil::chars_to_string(
                    &crate::strutil::str_to_chars(path),
                ));
                key.set_slot(name, value);
                self.keys.push(key);
                proof {
                    let new_key = KeyV {
                        path: path@,
                        deleted: false,
                        values: seq![EntryV { name: name@, value: value@ }],
                    };
                    assert(Seq::<EntryV>::empty().push(EntryV { name: name@, value: value@ })
                        =~= seq![EntryV { name: name@, value: value@ }]);
                    assert(self@.keys =~= old_view.keys.push(new_key));
                    assert(self@ =~= old_view.set_value_model(path@, name@, value@));
                    assert forall|a: int, b: int|
                        0 <= a < b < self@.keys.len() implies #[trigger] self@.keys[a].path
                        != #[trigger] self@.keys[b].path by {
                        if b == self@.keys.len() - 1 {
                            assert(!old_view.has_key(path@));
                            assert(old_view.keys[a].path != path@);
                        }
                    }
                    assert(self@.wf());
                }
            },
        }
    }

    /// Marks the whole key at `path` deleted, dropping its values; the key
    /// is created as a tombstone when absent.
    pub fn delete_key(&mut self, path: &str)
        requires
            old(self)@.wf(),
        ensures
            final(self)@ == old(self)@.delete_key_model(path@),
            final(self)@.wf(),
    {
        let ghost old_view = self@;
        let tomb_path = crate::strutil::chars_to_string(&crate::strutil::str_to_chars(path));
        let idx = self.find_key(path);
        let tomb = RegistryKey { path: tomb_path, deleted: true, values: Vec::new() };
        proof {
            assert(tomb@.values =~= Seq::<EntryV>::empty());
        }
        match idx {
            Some(i) => {
                self.keys[i] = tomb;
                proof {
                    assert(self@.keys =~= old_view.keys.update(
                        i as int,
                        KeyV { path: path@, deleted: true, values: Seq::empty() },
                    ));
                    assert(self@ =~= old_view.delete_key_model(path@));
                    assert forall|a: int, b: int|
                        0 <= a < b < self@.keys.len() implies #[trigger] self@.keys[a].path
                        != #[trigger] self@.keys[b].path by {
                        assert(old_view.keys[a].path != old_view.keys[b].path);
                    }
                    assert(self@.wf());
                }
            },
            None => {
                self.keys.push(tomb);
                proof {
                    assert(self@.keys =~= old_view.keys.push(
                        KeyV { path: path@, deleted: true, values: Seq::empty() },
                    ));
                    assert(self@ =~= old_view.delete_key_model(path@));
                    assert forall|a: int, b: int|
                        0 <= a < b < self@.keys.len() implies #[trigger] self@.keys[a].path
                        != #[trigger] self@.keys[b].path by {
                        if b == self@.keys.len() - 1 {
                            assert(old_view.keys[a].path != path@);
                        }
                    }
                    assert(self@.wf());
                }
            },
        }
    }

    /// The paths of all keys whose path contains `pattern` (every key when
    /// `pattern` is empty), in storage order.
    pub fn matching_paths(&self, pattern: &str) -> (r: Vec<String>)
        ensures
            r.deep_view() == self@.keys.map_values(|k: KeyV| k.path).filter(
                |p: Seq<char>| strutil::contains_seq(p, pattern@),
            ),
    {
        let pat = strutil::str_to_chars(pattern);
        let mut r: Vec<String> = Vec::new();
        let ghost all = self@.keys.map_values(|k: KeyV| k.path);
        let ghost pred = |p: Seq<char>| strutil::contains_seq(p, pattern@);
        let mut i: usize = 0;
        proof {
            assert(all.subrange(0, 0) =~= Seq::<Seq<char>>::empty());
            reveal(Seq::filter);
        }
        while i < self.keys.len()
            invariant
                i <= self.keys@.len(),
                all == self@.keys.map_values(|k: KeyV| k.path),
                all.len() == self.keys@.len(),
                pred == (|p: Seq<char>| strutil::contains_seq(p, pattern@)),
                pat@ == pattern@,
                r.deep_view() == all.subrange(0, i as int).filter(pred),
            decreases self.keys@.len() - i,
        {
            let ghost prefix = all.subrange(0, i as int);
            let path_chars = strutil::str_to_chars(self.keys[i].path.as_str());
            if strutil::chars_contain(&path_chars, &pat) {
                r.push(self.keys[i].path.clone());
            }
            i = i + 1;
            proof {
                reveal(Seq::filter);
                let prefix2 = all.subrange(0, i as int);
                assert(prefix2.drop_last() =~= prefix);
                assert(prefix2.last() == all[i - 1]);
                assert(all[i - 1] == self@.keys[i - 1].path);
                if pred(all[i - 1]) {
                    assert(r.deep_view() =~= prefix.filter(pred).push(self@.keys[i - 1].path));
                    assert(prefix2.filter(pred) =~= prefix.filter(pred).push(all[i - 1]));
                } else {
                    assert(prefix2.filter(pred) =~= prefix.filter(pred));
                }
            }
        }
        proof {
            assert(all.subrange(0, all.len() as int) =~= all);
        }
        r
    }

    /// The rendered value names and values of the key at `path`, in storage
    /// order; empty when the key is absent.
    pub fn key_values(&self, path: &str) -> (r: Vec<NamedValue>)
        requires
            self@.wf(),
        ensures
            r.deep_view() == (if self@.has_key(path@) {
                rendered_entries(self@.key_at(path@))
            } else {
                Seq::<NamedValueV>::empty()
            }),
    {
        let mut r: Vec<NamedValue> = Vec::new();
        match self.find_key(path) {
            Some(i) => {
                let key = &self.keys[i];
                let ghost kv = self@.key_at(path@);
                let mut j: usize = 0;
                while j < key.values.len()
                    invariant
                        j <= key.values@.len(),
                        key@ == kv,
                        r.deep_view() == rendered_entries(kv).subrange(0, j as int),
                    decreases key.values@.len() - j,
                {
                    let entry = &key.values[j];
                    proof {
                        assert(entry@ == kv.values[j as int]);
                    }
                    let name = match &entry.name {
                        ValueName::Default => String::from_str("(default)"),
                        ValueName::Named(s) => s.clone(),
                    };
                    proof {
                        assert(name@ == render_name(kv.values[j as int].name));
                    }
                    let nv = NamedValue { name, value: entry.value.clone() };
                    let ghost nvg = nv;
                    let ghost before = r@;
                    let ghost before_deep = r.deep_view();
                    proof {
                        assert(nvg@ == rendered_entries(kv)[j as int]);
                    }
                    r.push(nv);
                    j = j + 1;
                    proof {
                        let sub = rendered_entries(kv).subrange(0, j as int);
                        assert(before_deep == rendered_entries(kv).subrange(0, j - 1));
                        assert(before_deep == Seq::new(before.len(), |i: int| before[i].deep_view()));
                        assert(before_deep.len() == j - 1);
                        assert(before.len() == j - 1);
                        assert(r@ == before.push(nvg));
                        assert forall|t: int| 0 <= t < r@.len() implies #[trigger] r.deep_view()[t]
                            == sub[t] by {
                            if t < j - 1 {
                                assert(r@[t] == before[t]);
                                assert(before_deep[t] == before[t].deep_view());
                                assert(before_deep[t] == rendered_entries(kv).subrange(
                                    0,
                                    j - 1,
                                )[t]);
                            } else {
                                assert(r@[t] == nvg);
                            }
                        }
                        assert(r.deep_view() =~= sub);
                    }
                }
                proof {
                    assert(rendered_entries(kv).subrange(0, kv.values.len() as int)
                        =~= rendered_entries(kv));
                }
            },
            None => {
                proof {
                    assert(r.deep_view() =~= Seq::<NamedValueV>::empty());
                }
            },
        }
        r
    }

    /// The value stored at `path`/`name`, if any.
    pub fn lookup(&self, path: &str, name: &ValueName) -> (r: Option<&RegistryValue>)
        requires
            self@.wf(),
        ensures
            match r {
                Some(v) => self@.value_at(path@, name@) == Some(v@),
                None => self@.value_at(path@, name@) is None,
            },
    {
        match self.find_key(path) {
            Some(i) => {
                match self.keys[i].find_slot(name) {
                    Some(j) => Some(&self.keys[i].values[j].value),
                    None => None,
                }
            },
            None => None,
        }
    }
}

/// The slot designated by a value-name string: the empty string and
/// `"(default)"` both name the default slot.
pub fn parse_slot_name(name: &str) -> (r: ValueName)
    ensures
        r@ == slot_of(name@),
{
    if strutil::str_eq(name, "") || strutil::str_eq(name, "(default)") {
        proof {
            reveal_strlit("");
            assert(""@ =~= Seq::<char>::empty());
        }
        ValueName::Default
    } else {
        proof {
            reveal_strlit("");
            assert(""@ =~= Seq::<char>::empty());
            assert(name@ != Seq::<char>::empty());
        }
        ValueName::Named(String::from_str(name))
    }
}

/// The result after the three per-prefix registry files are reconciled:
/// the whole content of exactly one of them.  The result starts as the
/// system file's registry, is replaced wholesale by the user-defaults file
/// only when it still has no keys, and is then replaced wholesale by the
/// user file whenever that file loaded.
pub open spec fn merged_model(
    system: Option<RegistryV>,
    userdef: Option<RegistryV>,
    user: Option<RegistryV>,
) -> RegistryV {
    let base = match system {
        Some(r) => r,
        None => RegistryV { keys: Seq::empty() },
    };
    let with_userdef = match userdef {
        Some(r) => if base.keys.len() == 0 {
            r
        } else {
            base
        },
        None => base,
    };
    match user {
        Some(r) => r,
        None => with_userdef,
    }
}

/// Reconciles the registries parsed from the three files of a prefix.
///
/// A `None` stands for a file that was absent or could not be parsed.  The
/// call fails only when no file at all supplied a registry; otherwise the
/// result is the full content of exactly one file, per [`merged_model`]:
/// wholesale replacement, never a key-level union.
pub fn merge_prefix_registries(
    system: Option<Registry>,
    userdef: Option<Registry>,
    user: Option<Registry>,
) -> (r: Result<Registry, PrefixError>)
    ensures
        (r is Ok) <==> (system is Some || userdef is Some || user is Some),
        r matches Ok(m) ==> m@ == merged_model(
            match system {
                Some(s) => Some(s@),
                None => None,
            },
            match userdef {
                Some(s) => Some(s@),
                None => None,
            },
            match user {
                Some(s) => Some(s@),
                None => None,
            },
        ),
        r matches Err(e) ==> e matches PrefixError::NotFound(_),
{
    let any_loaded = system.is_some() || userdef.is_some() || user.is_some();
    if !any_loaded {
        return Err(
            PrefixError::NotFound(String::from_str("No valid registry files found in Wine prefix")),
        );
    }
    let mut merged = match system {
        Some(r) => r,
        None => Registry::new(),
    };
    match userdef {
        Some(r) => {
            if merged.keys.len() == 0 {
                proof {
                    assert(merged@.keys.len() == 0);
                }
                merged = r;
            }
        },
        None => {},
    }
    match user {
        Some(r) => {
            merged = r;
        },
        None => {},
    }
    Ok(merged)
}

/// A registry together with the filesystem location it was loaded from or
/// will be saved to.  The caller owns all file access; this type only keeps
/// the association.
#[derive(Debug, PartialEq, Eq)]
pub struct WineRegistry {
    /// The in-memory registry.
    pub registry: Registry,
    /// The path of the prefix or file this registry belongs to, if known.
    pub path: Option<String>,
}

impl Clone for WineRegistry {
    fn clone(&self) -> (r: Self)
        ensures
            r@ == self@,
            r.path_spec() == self.path_spec(),
    {
        let path = match &self.path {
            Some(p) => Some(p.clone()),
            None => None,
        };
        WineRegistry { registry: self.registry.clone(), path }
    }
}

impl View for WineRegistry {
    type V = RegistryV;

    open spec fn view(&self) -> RegistryV {
        self.registry@
    }
}

impl WineRegistry {
    /// The remembered filesystem path, as a character sequence.
    pub open spec fn path_spec(&self) -> Option<Seq<char>> {
        match self.path {
            Some(p) => Some(p@),
            None => None,
        }
    }

    /// A new empty registry with no associated path.
    pub fn new() -> (r: Self)
        ensures
            r@.keys == Seq::<KeyV>::empty(),
            r@.wf(),
            r.path_spec() is None,
    {
        WineRegistry { registry: Registry::new(), path: None }
    }

    /// The path of the registry file or prefix this registry belongs to.
    pub fn path(&self) -> (r: Option<&String>)
        ensures
            match r {
                Some(p) => self.path_spec() == Some(p@),
                None => self.path_spec() is None,
            },
    {
        self.path.as_ref()
    }

    /// The value stored at `key_path`/`value_name`, if any.  The lookup is
    /// an exact key-path match; a stored tombstone is returned like any
    /// other value.
    pub fn get_value(&self, key_path: &str, value_name: &str) -> (r: Result<
        Option<RegistryValue>,
        PrefixError,
    >)
        requires
            self@.wf(),
        ensures
            r matches Ok(v) && (match v {
                Some(value) => self@.value_at(key_path@, slot_of(value_name@)) == Some(value@),
                None => self@.value_at(key_path@, slot_of(value_name@)) is None,
            }),
    {
        let name = parse_slot_name(value_name);
        match self.registry.lookup(key_path, &name) {
            Some(v) => Ok(Some(v.clone())),
            None => Ok(None),
        }
    }

    /// Inserts or overwrites a single value, implicitly creating the key.
    pub fn set_value(&mut self, key_path: &str, value_name: &str, value: RegistryValue) -> (r:
        Result<(), PrefixError>)
        requires
            old(self)@.wf(),
        ensures
            r is Ok,
            final(self)@ == old(self)@.set_value_model(key_path@, slot_of(value_name@), value@),
            final(self)@.wf(),
            final(self).path_spec() == old(self).path_spec(),
    {
        let name = parse_slot_name(value_name);
        self.registry.set_value(key_path, name, value);
        Ok(())
    }

    /// Writes a `Delete` tombstone for the slot; the entry is not removed
    /// from the in-memory key, removal happens when the registry is written
    /// out.
    pub fn delete_value(&mut self, key_path: &str, value_name: &str) -> (r: Result<
        (),
        PrefixError,
    >)
        requires
            old(self)@.wf(),
        ensures
            r is Ok,
            final(self)@ == old(self)@.set_value_model(
                key_path@,
                slot_of(value_name@),
                RegistryValueV::Delete,
            ),
            final(self)@.wf(),
            final(self).path_spec() == old(self).path_spec(),
    {
        let name = parse_slot_name(value_name);
        self.registry.set_value(key_path, name, RegistryValue::Delete);
        Ok(())
    }

    /// Marks the entire key deleted, dropping its values.
    pub fn delete_key(&mut self, key_path: &str) -> (r: Result<(), PrefixError>)
        requires
            old(self)@.wf(),
        ensures
            r is Ok,
            final(self)@ == old(self)@.delete_key_model(key_path@),
            final(self)@.wf(),
            final(self).path_spec() == old(self).path_spec(),
    {
        self.registry.delete_key(key_path);
        Ok(())
    }

    /// Every key path containing `pattern` as a substring (every key path
    /// when `pattern` is empty), in storage order.
    pub fn find_keys(&self, pattern: &str) -> (r: Result<Vec<String>, PrefixError>)
        ensures
            r matches Ok(v) && v.deep_view() == self@.keys.map_values(|k: KeyV| k.path).filter(
                |p: Seq<char>| strutil::contains_seq(p, pattern@),
            ),
    {
        Ok(self.registry.matching_paths(pattern))
    }

    /// All values under one key, the default slot rendered as
    /// `"(default)"`; empty when the key is absent.
    pub fn get_key_values(&self, key_path: &str) -> (r: Result<Vec<NamedValue>, PrefixError>)
        requires
            self@.wf(),
        ensures
            r matches Ok(v) && v.deep_view() == (if self@.has_key(key_path@) {
                rendered_entries(self@.key_at(key_path@))
            } else {
                Seq::<NamedValueV>::empty()
            }),
    {
        Ok(self.registry.key_values(key_path))
    }

    /// Whether a key with exactly this path exists.
    pub fn key_exists(&self, key_path: &str) -> (r: Result<bool, PrefixError>)
        ensures
            r matches Ok(b) && b == self@.has_key(key_path@),
    {
        Ok(self.registry.has_key_path(key_path))
    }
}

} // verus!
