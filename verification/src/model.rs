//! Value model: the closed set of representable registry value types and the
//! identity rule for value slots, together with the mathematical view used by
//! every contract in the crate.

use vstd::prelude::*;

verus! {

/// Identifier of a value slot within a key.
///
/// The default (unnamed) slot of a key is distinct from a named slot whose
/// name happens to be the empty string.
#[derive(Debug, PartialEq, Eq)]
pub enum ValueName {
    /// The unnamed default slot of a key.
    Default,
    /// A named slot.
    Named(String),
}

/// A registry value.
///
/// `Delete` is a tombstone: an ordinary member of the union that marks a slot
/// for removal when registries are merged or written out, rather than a
/// separate mutation channel.
#[derive(Debug, PartialEq, Eq)]
pub enum RegistryValue {
    /// A string value.
    Str(String),
    /// A string value subject to environment expansion.
    ExpandStr(String),
    /// A 32-bit unsigned integer value.
    Dword(u32),
    /// A raw byte value.
    Binary(Vec<u8>),
    /// A list of strings.
    MultiStr(Vec<String>),
    /// A tombstone marking the slot for removal.
    Delete,
}

/// Mathematical view of a [`ValueName`].
#[verifier::ext_equal]
pub enum ValueNameV {
    Default,
    Named(Seq<char>),
}

/// Mathematical view of a [`RegistryValue`].
#[verifier::ext_equal]
pub enum RegistryValueV {
    Str(Seq<char>),
    ExpandStr(Seq<char>),
    Dword(u32),
    Binary(Seq<u8>),
    MultiStr(Seq<Seq<char>>),
    Delete,
}

impl View for ValueName {
    type V = ValueNameV;

    open spec fn view(&self) -> ValueNameV {
        match self {
            ValueName::Default => ValueNameV::Default,
            ValueName::Named(s) => ValueNameV::Named(s@),
        }
    }
}

impl View for RegistryValue {
    type V = RegistryValueV;

    open spec fn view(&self) -> RegistryValueV {
        match self {
            RegistryValue::Str(s) => RegistryValueV::Str(s@),
            RegistryValue::ExpandStr(s) => RegistryValueV::ExpandStr(s@),
            RegistryValue::Dword(d) => RegistryValueV::Dword(*d),
            RegistryValue::Binary(b) => RegistryValueV::Binary(b@),
            RegistryValue::MultiStr(v) => RegistryValueV::MultiStr(
                Seq::new(v@.len(), |i: int| v@[i]@),
            ),
            RegistryValue::Delete => RegistryValueV::Delete,
        }
    }
}

impl Clone for ValueName {
    fn clone(&self) -> (r: Self)
        ensures
            r@ == self@,
    {
        match self {
            ValueName::Default => ValueName::Default,
            ValueName::Named(s) => ValueName::Named(s.clone()),
        }
    }
}

impl Clone for RegistryValue {
    fn clone(&self) -> (r: Self)
        ensures
            r@ == self@,
    {
        match self {
            RegistryValue::Str(s) => RegistryValue::Str(s.clone()),
            RegistryValue::ExpandStr(s) => RegistryValue::ExpandStr(s.clone()),
            RegistryValue::Dword(d) => RegistryValue::Dword(*d),
            RegistryValue::Binary(b) => {
                let r = b.clone();
                proof {
                    assert(r@ =~= b@);
                }
                RegistryValue::Binary(r)
            },
            RegistryValue::MultiStr(v) => {
                let r = v.clone();
                proof {
                    assert forall|i: int| 0 <= i < v@.len() implies r@[i]@ == v@[i]@ by {
                        assert(vstd::pervasive::cloned::<String>(v@[i], r@[i]));
                    }
                    assert(Seq::new(r@.len(), |i: int| r@[i]@) =~= Seq::new(
                        v@.len(),
                        |i: int| v@[i]@,
                    ));
                }
                RegistryValue::MultiStr(r)
            },
            RegistryValue::Delete => RegistryValue::Delete,
        }
    }
}

impl ValueName {
    /// Whether two names identify the same slot.
    pub fn same_slot(&self, other: &ValueName) -> (r: bool)
        ensures
            r == (self@ == other@),
    {
        match (self, other) {
            (ValueName::Default, ValueName::Default) => true,
            (ValueName::Named(a), ValueName::Named(b)) => crate::strutil::str_eq(
                a.as_str(),
                b.as_str(),
            ),
            _ => false,
        }
    }
}

} // verus!
