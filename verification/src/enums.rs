//! Enum compilation: each declared enum becomes a closed table of named
//! 32-bit constants with a validating constructor. Entry names are
//! normalised to SHOUTY_SNAKE_CASE; a name that is not purely alphabetic is
//! prefixed with the owning interface's name, so identifiers never start
//! with a digit. Two entries may carry one value (bitfield enums); the
//! normalised names must be unique.

use vstd::prelude::*;
use vstd::string::{StrSliceExecFns, StringExecFns};

use crate::casing::{camel_of, is_alpha, is_alphabetic_char, shouty_of, to_camel, to_shouty};
use crate::error::{CompileError, DispatchError};
use crate::protocol::Enum;

verus! {

/// Whether every character of `s` is a letter.
pub open spec fn spec_all_alpha(s: Seq<char>) -> bool {
    forall|i: int| 0 <= i < s.len() ==> is_alphabetic_char(#[trigger] s[i])
}

/// The normalised constant name of an entry: its SHOUTY_SNAKE_CASE form,
/// prefixed with the owning interface's when the entry's name is not purely
/// alphabetic (an empty name counts as not alphabetic: the bare form would
/// be no identifier at all).
pub open spec fn spec_normalized_entry_name(iface: Seq<char>, entry: Seq<char>) -> Seq<char> {
    if entry.len() > 0 && spec_all_alpha(entry) {
        shouty_of(entry)
    } else {
        shouty_of(iface) + "_"@ + shouty_of(entry)
    }
}

/// Whether every character of `s` is a letter.
#[verifier::loop_isolation(false)]
fn all_alphabetic(s: &str) -> (r: bool)
    ensures
        r == spec_all_alpha(s@),
{
    let n = s.unicode_len();
    let mut i: usize = 0;
    while i < n
        invariant
            0 <= i <= s@.len(),
            forall|j: int| 0 <= j < i ==> is_alphabetic_char(#[trigger] s@[j]),
        decreases s@.len() - i,
    {
        let c = s.get_char(i);
        if !is_alpha(c) {
            return false;
        }
        i = i + 1;
    }
    true
}

/// Compute an entry's normalised constant name.
fn normalize_entry_name(iface: &String, entry: &String) -> (r: String)
    ensures
        r@ == spec_normalized_entry_name(iface@, entry@),
{
    if !entry.as_str().is_empty() && all_alphabetic(entry.as_str()) {
        to_shouty(entry.as_str())
    } else {
        let mut s = to_shouty(iface.as_str());
        s.append("_");
        let sh = to_shouty(entry.as_str());
        s.append(sh.as_str());
        s
    }
}

/// One compiled constant: its normalised name and its value.
#[derive(Debug)]
pub struct EnumEntry {
    pub name: String,
    pub value: u32,
}

/// One compiled enum: the generated wrapper type's name, the qualified
/// protocol name (`interface.enum`) used in errors, and the constant table.
#[derive(Debug)]
pub struct EnumType {
    pub rust_name: String,
    pub wl_name: String,
    pub entries: Vec<EnumEntry>,
}

/// What a correctly compiled enum looks like, relative to its declaration
/// and its owning interface's name.
pub open spec fn enum_compiled(t: EnumType, iface: Seq<char>, e: Enum) -> bool {
    &&& t.rust_name@ == camel_of(iface) + camel_of(e.name@)
    &&& t.wl_name@ == iface + "."@ + e.name@
    &&& t.entries@.len() == e.entries@.len()
    &&& forall|k: int|
        0 <= k < e.entries@.len() ==> {
            &&& (#[trigger] t.entries@[k]).name@ == spec_normalized_entry_name(
                iface,
                e.entries@[k].name@,
            )
            &&& t.entries@[k].value == e.entries@[k].value
        }
    &&& forall|a: int, b: int|
        0 <= a < b < t.entries@.len() ==> t.entries@[a].name@ != t.entries@[b].name@
}

/// Two declared entries whose normalised names collide, the second of them
/// spelled `entry`.
pub open spec fn enum_entry_collision(iface: Seq<char>, e: Enum, entry: Seq<char>) -> bool {
    exists|a: int, b: int|
        0 <= a < b < e.entries@.len() && spec_normalized_entry_name(
            iface,
            (#[trigger] e.entries@[a]).name@,
        ) == spec_normalized_entry_name(iface, (#[trigger] e.entries@[b]).name@) && entry
            == spec_normalized_entry_name(iface, e.entries@[b].name@)
}

/// Compile one enum declaration owned by the interface named `iface_name`:
/// build the constant table with normalised names, refusing a table whose
/// normalised names collide.
#[verifier::loop_isolation(false)]
pub fn compile_enum(iface_name: &String, e: &Enum) -> (r: Result<EnumType, CompileError>)
    ensures
        match r {
            Ok(t) => enum_compiled(t, iface_name@, *e),
            Err(CompileError::DuplicateEntry { enumeration, entry }) => {
                &&& enumeration@ == iface_name@ + "."@ + e.name@
                &&& enum_entry_collision(iface_name@, *e, entry@)
            },
            Err(_) => false,
        },
{
    let mut rust_name = to_camel(iface_name.as_str());
    let camel_enum = to_camel(e.name.as_str());
    rust_name.append(camel_enum.as_str());
    let mut wl_name = iface_name.clone();
    wl_name.append(".");
    wl_name.append(e.name.as_str());
    let mut entries: Vec<EnumEntry> = Vec::new();
    let mut i: usize = 0;
    while i < e.entries.len()
        invariant
            0 <= i <= e.entries@.len(),
            entries@.len() == i,
            forall|k: int|
                0 <= k < i ==> {
                    &&& (#[trigger] entries@[k]).name@ == spec_normalized_entry_name(
                        iface_name@,
                        e.entries@[k].name@,
                    )
                    &&& entries@[k].value == e.entries@[k].value
                },
            forall|a: int, b: int|
                0 <= a < b < i ==> entries@[a].name@ != entries@[b].name@,
        decreases e.entries@.len() - i,
    {
        let norm = normalize_entry_name(iface_name, &e.entries[i].name);
        let mut j: usize = 0;
        while j < entries.len()
            invariant
                0 <= j <= entries@.len(),
                forall|k: int| 0 <= k < j ==> entries@[k].name@ != norm@,
            decreases entries@.len() - j,
        {
            if entries[j].name.eq(&norm) {
                proof {
                    assert(spec_normalized_entry_name(iface_name@, e.entries@[j as int].name@)
                        == spec_normalized_entry_name(iface_name@, e.entries@[i as int].name@));
                    assert(enum_entry_collision(iface_name@, *e, norm@));
                }
                return Err(CompileError::DuplicateEntry { enumeration: wl_name, entry: norm });
            }
            j = j + 1;
        }
        entries.push(EnumEntry { name: norm, value: e.entries[i].value });
        i = i + 1;
    }
    Ok(EnumType { rust_name, wl_name, entries })
}

impl EnumType {
    /// Validate a raw 32-bit value against the constant table: the value
    /// comes back unchanged exactly when some declared entry carries it;
    /// any other value is refused with `NoVariant` carrying the enum's
    /// qualified name and the offending value.
    #[verifier::loop_isolation(false)]
    pub fn new(&self, value: u32) -> (r: Result<u32, DispatchError>)
        ensures
            match r {
                Ok(v) => {
                    &&& v == value
                    &&& exists|k: int|
                        0 <= k < self.entries@.len() && (#[trigger] self.entries@[k]).value
                            == value
                },
                Err(DispatchError::NoVariant { name, value: v2 }) => {
                    &&& name@ == self.wl_name@
                    &&& v2 == value
                    &&& forall|k: int|
                        0 <= k < self.entries@.len() ==> (#[trigger] self.entries@[k]).value
                            != value
                },
                Err(_) => false,
            },
    {
        let mut i: usize = 0;
        while i < self.entries.len()
            invariant
                0 <= i <= self.entries@.len(),
                forall|k: int| 0 <= k < i ==> (#[trigger] self.entries@[k]).value != value,
            decreases self.entries@.len() - i,
        {
            if self.entries[i].value == value {
                return Ok(value);
            }
            i = i + 1;
        }
        Err(DispatchError::NoVariant { name: self.wl_name.clone(), value })
    }
}

} // verus!
