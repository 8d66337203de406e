//! Schema model: the typed in-memory representation of a protocol document.
//!
//! A `Protocol` owns an ordered list of `Interface`s; each interface declares
//! ordered `Request`s, `Event`s and `Enum`s. Message opcodes are the 0-based
//! declaration index of the request or event. The model is pure data,
//! constructed once by the loader and never mutated.

use vstd::prelude::*;

verus! {

/// Wire type tag of one message argument. Closed set, no user extension.
#[derive(Clone, Copy, Debug, PartialEq, Eq, Structural)]
pub enum DataType {
    Int,
    Uint,
    Fixed,
    String,
    Array,
    Fd,
    Object,
    NewId,
}

impl DataType {
    /// The schema tag of this type, as it appears in a protocol document.
    /// Decode errors name the offending type with this string.
    pub fn name(&self) -> (r: &'static str)
        ensures
            r@ == self.spec_name(),
    {
        proof {
            reveal_strlit("int");
            reveal_strlit("uint");
            reveal_strlit("fixed");
            reveal_strlit("string");
            reveal_strlit("array");
            reveal_strlit("fd");
            reveal_strlit("object");
            reveal_strlit("new_id");
        }
        match self {
            DataType::Int => "int",
            DataType::Uint => "uint",
            DataType::Fixed => "fixed",
            DataType::String => "string",
            DataType::Array => "array",
            DataType::Fd => "fd",
            DataType::Object => "object",
            DataType::NewId => "new_id",
        }
    }

    /// The schema tag as a sequence of characters.
    pub open spec fn spec_name(&self) -> Seq<char> {
        match self {
            DataType::Int => "int"@,
            DataType::Uint => "uint"@,
            DataType::Fixed => "fixed"@,
            DataType::String => "string"@,
            DataType::Array => "array"@,
            DataType::Fd => "fd"@,
            DataType::Object => "object"@,
            DataType::NewId => "new_id"@,
        }
    }
}

/// Marker read from a request declaration: a destructor request tears the
/// receiving object down after dispatch.
#[derive(Clone, Copy, Debug, PartialEq, Eq, Structural)]
pub enum RequestType {
    Destructor,
}

/// One message parameter: a name, a wire type, and, for `Object`/`NewId`
/// arguments, an optional referenced interface. A present interface name
/// makes the reference statically typed; an absent one leaves it dynamically
/// typed, resolved at runtime. `enumeration` names an enum whose entries
/// constrain the value.
#[derive(Clone, Debug)]
pub struct Arg {
    pub name: String,
    pub kind: DataType,
    pub interface: Option<String>,
    pub enumeration: Option<String>,
    pub summary: Option<String>,
}

impl Arg {
    /// Whether an `Object`/`NewId` reference is statically typed: the schema
    /// names the interface the referenced object must implement.
    pub open spec fn is_static_reference(&self) -> bool {
        self.interface is Some
    }

    /// The trace-format fragment for this argument: strings are quoted,
    /// new ids (statically and dynamically typed alike) are shown with a
    /// `dyn` marker, everything else is shown bare.
    pub open spec fn spec_debug_string(&self) -> Seq<char> {
        if self.kind is NewId {
            "dyn {}"@
        } else if self.kind is String {
            "{:?}"@
        } else {
            "{}"@
        }
    }

    /// Format fragment used when tracing a message that carries this
    /// argument.
    pub fn debug_string(&self) -> (r: &'static str)
        ensures
            r@ == self.spec_debug_string(),
    {
        proof {
            reveal_strlit("dyn {}");
            reveal_strlit("{:?}");
            reveal_strlit("{}");
        }
        match self.kind {
            DataType::NewId => "dyn {}",
            DataType::String => "{:?}",
            _ => "{}",
        }
    }
}

/// One enum constant: a name and an unsigned 32-bit value. Values need not
/// be unique (bitfield enums repeat them); names must be unique after
/// normalisation.
#[derive(Clone, Debug)]
pub struct Entry {
    pub name: String,
    pub since: Option<u32>,
    pub summary: Option<String>,
    pub description: Option<String>,
    pub value: u32,
}

/// A named set of integer constants scoped to an interface.
#[derive(Clone, Debug)]
pub struct Enum {
    pub name: String,
    pub summary: Option<String>,
    pub description: Option<String>,
    pub since: Option<u32>,
    pub entries: Vec<Entry>,
}

/// A client-to-server message definition. Its opcode is its 0-based
/// declaration index within the owning interface.
#[derive(Clone, Debug)]
pub struct Request {
    pub name: String,
    pub since: Option<u32>,
    pub destructor: bool,
    pub summary: Option<String>,
    pub description: Option<String>,
    pub args: Vec<Arg>,
}

/// A server-to-client message definition. Its opcode is its 0-based
/// declaration index within the owning interface.
#[derive(Clone, Debug)]
pub struct Event {
    pub name: String,
    pub since: Option<u32>,
    pub summary: Option<String>,
    pub description: Option<String>,
    pub args: Vec<Arg>,
}

/// One object type declared by the protocol.
#[derive(Clone, Debug)]
pub struct Interface {
    pub name: String,
    pub summary: Option<String>,
    pub description: Option<String>,
    pub version: u32,
    pub enums: Vec<Enum>,
    pub requests: Vec<Request>,
    pub events: Vec<Event>,
}

/// One schema document: a named protocol and its interfaces.
#[derive(Clone, Debug)]
pub struct Protocol {
    pub name: String,
    pub summary: Option<String>,
    pub description: Option<String>,
    pub copyright: Option<String>,
    pub interfaces: Vec<Interface>,
}

/// No two elements of `names` are equal.
pub open spec fn names_unique(names: Seq<Seq<char>>) -> bool {
    forall|i: int, j: int| 0 <= i < j < names.len() ==> names[i] != names[j]
}

impl Interface {
    /// Structural invariant of one interface: a positive version and
    /// request/event names unique within the interface.
    pub open spec fn wf(&self) -> bool {
        &&& self.version >= 1
        &&& names_unique(self.requests@.map_values(|r: Request| r.name@))
        &&& names_unique(self.events@.map_values(|e: Event| e.name@))
    }
}

impl Protocol {
    /// The declared interface with the given name, if any.
    pub open spec fn spec_find_interface(&self, name: Seq<char>) -> Option<Interface> {
        if exists|i: int| 0 <= i < self.interfaces@.len() && self.interfaces@[i].name@ == name {
            Some(
                self.interfaces@[choose|i: int|
                    0 <= i < self.interfaces@.len() && self.interfaces@[i].name@ == name],
            )
        } else {
            None
        }
    }

    /// Whether an interface with the given name is declared.
    pub open spec fn declares_interface(&self, name: Seq<char>) -> bool {
        exists|i: int| 0 <= i < self.interfaces@.len() && self.interfaces@[i].name@ == name
    }

    /// Structural invariant of a schema document: interface names unique
    /// within the protocol, each interface well formed.
    pub open spec fn wf(&self) -> bool {
        &&& names_unique(self.interfaces@.map_values(|i: Interface| i.name@))
        &&& forall|i: int| 0 <= i < self.interfaces@.len() ==> (#[trigger] self.interfaces@[i]).wf()
    }

    /// Look an interface up by name.
    pub fn find_interface(&self, name: &String) -> (r: Option<&Interface>)
        ensures
            match r {
                Some(interface) => {
                    &&& self.spec_find_interface(name@) is Some
                    &&& interface.name@ == name@
                    &&& exists|i: int|
                        0 <= i < self.interfaces@.len() && self.interfaces@[i] == *interface
                    &&& (self.wf() ==> self.spec_find_interface(name@) == Some(*interface))
                },
                None => self.spec_find_interface(name@) is None,
            },
    {
        let mut idx: usize = 0;
        while idx < self.interfaces.len()
            invariant
                0 <= idx <= self.interfaces@.len(),
                forall|i: int| 0 <= i < idx ==> self.interfaces@[i].name@ != name@,
            decreases self.interfaces@.len() - idx,
        {
            if self.interfaces[idx].name.eq(name) {
                proof {
                    if self.wf() {
                        let names = self.interfaces@.map_values(|it: Interface| it.name@);
                        let ci = choose|ci: int|
                            0 <= ci < self.interfaces@.len() && self.interfaces@[ci].name@
                                == name@;
                        assert(self.interfaces@[idx as int].name@ == name@);
                        assert(names[ci] == name@ && names[idx as int] == name@);
                        if ci < idx {
                            assert(names[ci] != names[idx as int]);
                        }
                        if idx < ci {
                            assert(names[idx as int] != names[ci]);
                        }
                    }
                }
                return Some(&self.interfaces[idx]);
            }
            idx = idx + 1;
        }
        None
    }
}

} // verus!
