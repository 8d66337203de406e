//! Error types. Compile-time errors abort a compilation outright; runtime
//! dispatch errors are recoverable per message and carry enough context to
//! diagnose the offending message without access to the schema.

use vstd::prelude::*;

verus! {

/// A resolution or generation failure. Compilation aborts on the first of
/// these: an incomplete or inconsistent schema must never produce
/// silently-wrong dispatch machinery.
#[derive(Clone, Debug)]
pub enum CompileError {
    /// A binding declares an interface that the schema does not define
    /// (and the binding is not marked external).
    UnknownInterface { declared_name: String },
    /// An interface's argument references an interface that no non-external
    /// binding implements, so generated code could not name a concrete type.
    UnresolvedDependency { owner_interface: String, missing_interface: String },
    /// Two bindings declare the same interface.
    DuplicateBinding { interface: String },
    /// Two interfaces of one protocol share a name.
    DuplicateInterface { name: String },
    /// Two requests or two events of one interface share a name.
    DuplicateMessage { interface: String, name: String },
    /// Two entries of one enum share a name after normalisation.
    DuplicateEntry { enumeration: String, entry: String },
    /// An interface declares a version below 1.
    InvalidVersion { interface: String, version: u32 },
}

/// A failure while dispatching or validating one incoming message. Fatal for
/// the message, recoverable for the connection: the caller decides.
#[derive(Clone, Debug)]
pub enum DispatchError {
    /// The message's opcode matches no declared request of the target
    /// object's interface.
    InvalidOpcode { object: u32, opcode: u16, interface: String },
    /// The message ran out of bytes (or descriptors) before the named
    /// argument type could be read.
    ExpectedArgument { data_type: String },
    /// An object argument referenced a live object of the wrong interface
    /// (`found` holds its actual interface), or no available object at all
    /// (`found` is `None`). `expected` is `None` for a dynamically typed
    /// lookup, which checks no interface.
    InvalidObject { object: u32, expected: Option<String>, found: Option<String> },
    /// An enum constructor was handed a value that matches no declared entry.
    NoVariant { name: String, value: u32 },
}

} // verus!
