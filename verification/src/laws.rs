//! General laws of the store: what a write leaves behind, what it leaves
//! alone, and that repeating a write changes nothing further.

use vstd::prelude::*;

use crate::editor::{string_value_model, with_string_value};
use crate::model::{RegistryValueV, ValueNameV};
use crate::schema::WindowsVersion;
use crate::store::{slot_of, EntryV, KeyV, RegistryV};

verus! {

/// Writing a value preserves well-formedness.
pub proof fn lemma_set_value_preserves_wf(
    r: RegistryV,
    path: Seq<char>,
    name: ValueNameV,
    value: RegistryValueV,
)
    requires
        r.wf(),
    ensures
        r.set_value_model(path, name, value).wf(),
{
    let r2 = r.set_value_model(path, name, value);
    if r.has_key(path) {
        let i = r.key_index(path);
        let k = r.key_at(path);
        let k2 = k.with_slot(name, value);
        assert(k.wf());
        assert(k2.wf()) by {
            if k.has_slot(name) {
                let s = k.slot_index(name);
                assert forall|a: int, b: int|
                    0 <= a < b < k2.values.len() implies #[trigger] k2.values[a].name
                    != #[trigger] k2.values[b].name by {
                    assert(k.values[a].name != k.values[b].name);
                    if a == s {
                        assert(k2.values[a].name == name && k.values[a].name == name);
                    }
                    if b == s {
                        assert(k2.values[b].name == name && k.values[b].name == name);
                    }
                }
            } else {
                assert forall|a: int, b: int|
                    0 <= a < b < k2.values.len() implies #[trigger] k2.values[a].name
                    != #[trigger] k2.values[b].name by {
                    if b == k2.values.len() - 1 {
                        assert(k2.values[a] == k.values[a]);
                        assert(k.values[a].name != name);
                    } else {
                        assert(k2.values[a] == k.values[a] && k2.values[b] == k.values[b]);
                    }
                }
            }
        }
        assert forall|a: int, b: int|
            0 <= a < b < r2.keys.len() implies (#[trigger] r2.keys[a]).path != (
        #[trigger] r2.keys[b]).path by {
            assert(r.keys[a].path != r.keys[b].path);
            if a == i {
                assert(r2.keys[a].path == k.path && r.keys[a].path == k.path);
            }
            if b == i {
                assert(r2.keys[b].path == k.path && r.keys[b].path == k.path);
            }
        }
        assert forall|t: int| 0 <= t < r2.keys.len() implies (#[trigger] r2.keys[t]).wf() by {
            if t != i {
                assert(r2.keys[t] == r.keys[t]);
            }
        }
    } else {
        assert forall|a: int, b: int|
            0 <= a < b < r2.keys.len() implies (#[trigger] r2.keys[a]).path != (
        #[trigger] r2.keys[b]).path by {
            if b == r2.keys.len() - 1 {
                assert(r2.keys[a] == r.keys[a]);
                assert(r.keys[a].path != path);
            } else {
                assert(r2.keys[a] == r.keys[a] && r2.keys[b] == r.keys[b]);
            }
        }
        assert forall|t: int| 0 <= t < r2.keys.len() implies (#[trigger] r2.keys[t]).wf() by {
            if t < r2.keys.len() - 1 {
                assert(r2.keys[t] == r.keys[t]);
            } else {
                let nk = r2.keys[t];
                assert(nk.values.len() == 1);
            }
        }
    }
}

/// After a write, the written slot holds exactly the written value.
pub proof fn lemma_get_after_set(
    r: RegistryV,
    path: Seq<char>,
    name: ValueNameV,
    value: RegistryValueV,
)
    requires
        r.wf(),
    ensures
        r.set_value_model(path, name, value).value_at(path, name) == Some(value),
{
    let r2 = r.set_value_model(path, name, value);
    lemma_set_value_preserves_wf(r, path, name, value);
    if r.has_key(path) {
        let i = r.key_index(path);
        let k = r.key_at(path);
        let k2 = k.with_slot(name, value);
        assert(r2.keys[i] == k2);
        assert(k2.path == path);
        assert(r2.keys[i].path == path);
        assert(r2.has_key(path));
        assert(r2.key_index(path) == i) by {
            let j = r2.key_index(path);
            assert(r2.keys[j].path == path);
            if j != i {
                assert(r2.keys[j].path != r2.keys[i].path);
            }
        }
        if k.has_slot(name) {
            let s = k.slot_index(name);
            assert(k2.values[s].name == name);
            assert(k2.has_slot(name));
            assert(k2.slot_index(name) == s) by {
                let t = k2.slot_index(name);
                assert(k2.values[t].name == name);
                if t != s {
                    assert(k2.wf());
                    assert(k2.values[t].name != k2.values[s].name);
                }
            }
        } else {
            let s = k2.values.len() - 1;
            assert(k2.values[s].name == name);
            assert(k2.has_slot(name));
            assert(k2.slot_index(name) == s) by {
                let t = k2.slot_index(name);
                assert(k2.values[t].name == name);
                if t != s {
                    assert(k2.wf());
                    assert(k2.values[t].name != k2.values[s].name);
                }
            }
        }
    } else {
        let i = r2.keys.len() - 1;
        assert(r2.keys[i].path == path);
        assert(r2.has_key(path));
        assert(r2.key_index(path) == i) by {
            let j = r2.key_index(path);
            assert(r2.keys[j].path == path);
            if j != i {
                assert(r2.keys[j].path != r2.keys[i].path);
            }
        }
        let k2 = r2.keys[i];
        assert(k2.values == seq![EntryV { name, value }]);
        assert(k2.values[0].name == name);
        assert(k2.has_slot(name));
        assert(k2.slot_index(name) == 0) by {
            let t = k2.slot_index(name);
            assert(0 <= t < 1);
        }
    }
}

/// A write leaves every other slot of every key untouched.
pub proof fn lemma_set_value_frame(
    r: RegistryV,
    path: Seq<char>,
    name: ValueNameV,
    value: RegistryValueV,
    path2: Seq<char>,
    name2: ValueNameV,
)
    requires
        r.wf(),
        path2 != path || name2 != name,
    ensures
        r.set_value_model(path, name, value).value_at(path2, name2) == r.value_at(path2, name2),
{
    let r2 = r.set_value_model(path, name, value);
    lemma_set_value_preserves_wf(r, path, name, value);
    if path2 != path {
        // Other keys are untouched.
        assert(r2.has_key(path2) == r.has_key(path2)) by {
            if r.has_key(path2) {
                let j = r.key_index(path2);
                assert(r.keys[j].path == path2);
                assert(r2.keys[j] == r.keys[j] || r2.keys[j].path == r.keys[j].path);
                assert(r2.keys[j].path == path2);
            }
            if r2.has_key(path2) {
                let j = r2.key_index(path2);
                assert(r2.keys[j].path == path2);
                if r.has_key(path) {
                    assert(r.keys[j].path == path2);
                } else {
                    if j < r.keys.len() {
                        assert(r.keys[j].path == path2);
                    }
                }
            }
        }
        if r.has_key(path2) {
            let j = r.key_index(path2);
            assert(r2.key_index(path2) == j) by {
                let t = r2.key_index(path2);
                assert(r2.keys[t].path == path2);
                assert(r2.keys[j].path == path2);
                if t != j {
                    assert(r2.keys[t].path != r2.keys[j].path);
                }
            }
            assert(r2.keys[j] == r.keys[j]) by {
                if r.has_key(path) {
                    let i = r.key_index(path);
                    assert(r.keys[i].path == path);
                    assert(j != i);
                }
            }
        }
    } else {
        // Same key, different slot.
        assert(name2 != name);
        if r.has_key(path) {
            let i = r.key_index(path);
            let k = r.key_at(path);
            let k2 = k.with_slot(name, value);
            assert(r2.keys[i] == k2);
            assert(k2.path == path);
            assert(r2.keys[i].path == path);
            assert(r2.has_key(path));
            assert(r2.key_index(path) == i) by {
                let t = r2.key_index(path);
                assert(r2.keys[t].path == path);
                if t != i {
                    assert(r2.keys[t].path != r2.keys[i].path);
                }
            }
            assert(k2.has_slot(name2) == k.has_slot(name2)) by {
                if k.has_slot(name2) {
                    let s = k.slot_index(name2);
                    assert(k.values[s].name == name2);
                    assert(k2.values[s].name == name2) by {
                        if k.has_slot(name) && s == k.slot_index(name) {
                            assert(k.values[s].name == name);
                        }
                    }
                }
                if k2.has_slot(name2) {
                    let s = k2.slot_index(name2);
                    assert(k2.values[s].name == name2);
                    if k.has_slot(name) {
                        assert(k.values[s].name == name2) by {
                            if s == k.slot_index(name) {
                                assert(k2.values[s].name == name);
                            }
                        }
                    } else {
                        if s < k.values.len() {
                            assert(k.values[s].name == name2);
                        } else {
                            assert(k2.values[s].name == name);
                        }
                    }
                }
            }
            if k.has_slot(name2) {
                let s = k.slot_index(name2);
                assert(k2.slot_index(name2) == s) by {
                    let t = k2.slot_index(name2);
                    assert(k2.values[t].name == name2);
                    assert(k2.values[s].name == name2) by {
                        if k.has_slot(name) && s == k.slot_index(name) {
                            assert(k.values[s].name == name);
                        }
                    }
                    if t != s {
                        assert(k2.wf()) by {
                            lemma_set_value_preserves_wf(r, path, name, value);
                            assert(r2.keys[i] == k2);
                        }
                        assert(k2.values[t].name != k2.values[s].name);
                    }
                }
                assert(k2.values[s] == k.values[s]) by {
                    if k.has_slot(name) && s == k.slot_index(name) {
                        assert(k.values[s].name == name);
                    }
                }
            }
        } else {
            let i = r2.keys.len() - 1;
            assert(r2.keys[i].path == path);
            assert(r2.key_index(path) == i) by {
                let t = r2.key_index(path);
                assert(r2.keys[t].path == path);
                if t != i {
                    assert(r2.keys[t].path != r2.keys[i].path);
                }
            }
            let k2 = r2.keys[i];
            assert(!k2.has_slot(name2)) by {
                if k2.has_slot(name2) {
                    let s = k2.slot_index(name2);
                    assert(k2.values[s].name == name2);
                    assert(k2.values == seq![EntryV { name, value }]);
                }
            }
            assert(!r.has_key(path));
        }
    }
}

/// Repeating the same write changes nothing further: the store after two
/// identical writes equals the store after one, so in particular no key
/// count grows on the second write.
pub proof fn lemma_set_value_idempotent(
    r: RegistryV,
    path: Seq<char>,
    name: ValueNameV,
    value: RegistryValueV,
)
    requires
        r.wf(),
    ensures
        r.set_value_model(path, name, value).set_value_model(path, name, value)
            == r.set_value_model(path, name, value),
{
    let r1 = r.set_value_model(path, name, value);
    lemma_set_value_preserves_wf(r, path, name, value);
    lemma_get_after_set(r, path, name, value);
    let r2 = r1.set_value_model(path, name, value);
    assert(r1.has_key(path)) by {
        lemma_get_after_set(r, path, name, value);
    }
    let i = r1.key_index(path);
    let k1 = r1.key_at(path);
    assert(k1.has_slot(name) && k1.slot_value(name) == value);
    let s = k1.slot_index(name);
    assert(k1.values[s] == (EntryV { name, value }));
    let k2 = k1.with_slot(name, value);
    assert(k2.values =~= k1.values);
    assert(k2 =~= k1);
    assert(r2.keys =~= r1.keys.update(i, k1));
    assert(r2.keys =~= r1.keys);
    assert(r2 =~= r1);
}

/// Setting the Windows version twice in a row leaves the same store as
/// setting it once — so the stored version still reads back, and no key
/// grows on the second write.
pub proof fn lemma_windows_version_idempotent(r: RegistryV, version: WindowsVersion)
    requires
        r.wf(),
    ensures
        ({
            let once = with_string_value(r, "Software\\Wine"@, "Version"@, version.to_str_spec());
            let twice = with_string_value(
                once,
                "Software\\Wine"@,
                "Version"@,
                version.to_str_spec(),
            );
            &&& twice == once
            &&& string_value_model(once, "Software\\Wine"@, "Version"@) == Some(
                version.to_str_spec(),
            )
        }),
{
    lemma_set_value_idempotent(
        r,
        "Software\\Wine"@,
        slot_of("Version"@),
        RegistryValueV::Str(version.to_str_spec()),
    );
    lemma_get_after_set(
        r,
        "Software\\Wine"@,
        slot_of("Version"@),
        RegistryValueV::Str(version.to_str_spec()),
    );
}

/// The default slot and a named slot of the same key never overwrite one
/// another: after writing both, each read gives back its own value.
pub proof fn lemma_default_and_named_independent(
    r: RegistryV,
    path: Seq<char>,
    name: Seq<char>,
    default_value: RegistryValueV,
    named_value: RegistryValueV,
)
    requires
        r.wf(),
    ensures
        ({
            let r1 = r.set_value_model(path, ValueNameV::Default, default_value);
            let r2 = r1.set_value_model(path, ValueNameV::Named(name), named_value);
            &&& r2.value_at(path, ValueNameV::Default) == Some(default_value)
            &&& r2.value_at(path, ValueNameV::Named(name)) == Some(named_value)
        }),
{
    let r1 = r.set_value_model(path, ValueNameV::Default, default_value);
    lemma_set_value_preserves_wf(r, path, ValueNameV::Default, default_value);
    lemma_get_after_set(r, path, ValueNameV::Default, default_value);
    lemma_get_after_set(r1, path, ValueNameV::Named(name), named_value);
    lemma_set_value_frame(
        r1,
        path,
        ValueNameV::Named(name),
        named_value,
        path,
        ValueNameV::Default,
    );
}

} // verus!
