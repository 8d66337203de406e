//! Binding resolution: the embedder declares which concrete implementation
//! realises each schema interface, and the resolver checks that set against
//! the protocol before anything is compiled. A binding may be marked
//! external: it only asserts that a type implements the interface
//! elsewhere, supplies no generated contract, and need not match an
//! interface of the current document.
//!
//! Interface names are compared in their snake_case normal form, computed
//! once when a binding is inserted.

use vstd::prelude::*;

use crate::casing::{snake_of, to_snake};
use crate::error::CompileError;
use crate::protocol::{Arg, Event, Interface, Protocol, Request};

verus! {

/// One embedder-declared mapping: the interface name as declared, its
/// snake_case key, the implementing type (as path text), and whether the
/// binding is external.
#[derive(Debug)]
pub struct Binding {
    pub interface: String,
    pub key: String,
    pub implementation: String,
    pub external: bool,
}

/// Whether some binding carries the given snake_case key.
pub open spec fn has_key(bs: Seq<Binding>, key: Seq<char>) -> bool {
    exists|i: int| 0 <= i < bs.len() && bs[i].key@ == key
}

/// Whether some non-external binding carries the given snake_case key.
pub open spec fn has_nonexternal(bs: Seq<Binding>, key: Seq<char>) -> bool {
    exists|i: int| 0 <= i < bs.len() && bs[i].key@ == key && !bs[i].external
}

/// An external binding is trusted as declared; any other must name an
/// interface of the schema document.
pub open spec fn binding_known(b: Binding, proto: Protocol) -> bool {
    b.external || exists|i: int|
        0 <= i < proto.interfaces@.len() && snake_of(proto.interfaces@[i].name@) == b.key@
}

/// Every binding of the set is known (or external).
pub open spec fn all_bindings_known(bs: Seq<Binding>, proto: Protocol) -> bool {
    forall|i: int| 0 <= i < bs.len() ==> binding_known(#[trigger] bs[i], proto)
}

/// Whether this argument statically references an interface, so that
/// generated code must name the referenced interface's implementation.
pub open spec fn arg_needs_binding(arg: Arg) -> bool {
    &&& (arg.kind is Object || arg.kind is NewId)
    &&& arg.interface is Some
}

/// Every statically referencing argument of the request resolves to a
/// non-external binding.
pub open spec fn request_args_resolved(req: Request, bs: Seq<Binding>) -> bool {
    forall|a: int|
        0 <= a < req.args@.len() ==> (arg_needs_binding(#[trigger] req.args@[a])
            ==> has_nonexternal(bs, snake_of(req.args@[a].interface->Some_0@)))
}

/// Every statically referencing argument of the event resolves to a
/// non-external binding.
pub open spec fn event_args_resolved(ev: Event, bs: Seq<Binding>) -> bool {
    forall|a: int|
        0 <= a < ev.args@.len() ==> (arg_needs_binding(#[trigger] ev.args@[a])
            ==> has_nonexternal(bs, snake_of(ev.args@[a].interface->Some_0@)))
}

/// Whether the interface itself is realised by a non-external binding, so
/// that a contract and a dispatch table are generated for it.
pub open spec fn interface_bound(iface: Interface, bs: Seq<Binding>) -> bool {
    has_nonexternal(bs, snake_of(iface.name@))
}

/// Every statically referencing argument of the interface resolves.
pub open spec fn iface_args_resolved(iface: Interface, bs: Seq<Binding>) -> bool {
    &&& forall|r: int|
        0 <= r < iface.requests@.len() ==> request_args_resolved(
            #[trigger] iface.requests@[r],
            bs,
        )
    &&& forall|e: int|
        0 <= e < iface.events@.len() ==> event_args_resolved(#[trigger] iface.events@[e], bs)
}

/// Every interface that will be compiled has all of its static references
/// resolved; interfaces left to external or absent bindings are not
/// compiled and impose nothing.
pub open spec fn all_refs_resolved(proto: Protocol, bs: Seq<Binding>) -> bool {
    forall|i: int|
        0 <= i < proto.interfaces@.len() ==> (interface_bound(
            #[trigger] proto.interfaces@[i],
            bs,
        ) ==> iface_args_resolved(proto.interfaces@[i], bs))
}

/// A statically referencing request argument of `iface` whose referenced
/// interface `missing` no non-external binding realises.
pub open spec fn request_arg_unresolved(
    iface: Interface,
    bs: Seq<Binding>,
    missing: Seq<char>,
) -> bool {
    exists|r: int, a: int|
        0 <= r < iface.requests@.len() && 0 <= a < iface.requests@[r].args@.len()
            && arg_needs_binding(#[trigger] iface.requests@[r].args@[a]) && missing
            == iface.requests@[r].args@[a].interface->Some_0@ && !has_nonexternal(
            bs,
            snake_of(missing),
        )
}

/// A statically referencing event argument of `iface` whose referenced
/// interface `missing` no non-external binding realises.
pub open spec fn event_arg_unresolved(
    iface: Interface,
    bs: Seq<Binding>,
    missing: Seq<char>,
) -> bool {
    exists|e: int, a: int|
        0 <= e < iface.events@.len() && 0 <= a < iface.events@[e].args@.len()
            && arg_needs_binding(#[trigger] iface.events@[e].args@[a]) && missing
            == iface.events@[e].args@[a].interface->Some_0@ && !has_nonexternal(
            bs,
            snake_of(missing),
        )
}

/// A witness that resolution must fail: a compiled interface named `owner`
/// has a statically referencing argument whose interface `missing` no
/// non-external binding realises.
pub open spec fn unresolved_witness(
    proto: Protocol,
    bs: Seq<Binding>,
    owner: Seq<char>,
    missing: Seq<char>,
) -> bool {
    exists|i: int|
        0 <= i < proto.interfaces@.len() && interface_bound(#[trigger] proto.interfaces@[i], bs)
            && owner == proto.interfaces@[i].name@ && (request_arg_unresolved(
            proto.interfaces@[i],
            bs,
            missing,
        ) || event_arg_unresolved(proto.interfaces@[i], bs, missing))
}

/// The embedder's binding declarations, at most one per interface name.
#[derive(Debug)]
pub struct BindingSet {
    pub entries: Vec<Binding>,
}

/// Whether some non-external binding of `entries` carries `key`.
fn find_nonexternal(entries: &Vec<Binding>, key: &String) -> (r: bool)
    ensures
        r == has_nonexternal(entries@, key@),
{
    let mut i: usize = 0;
    while i < entries.len()
        invariant
            0 <= i <= entries@.len(),
            forall|j: int| 0 <= j < i ==> !(entries@[j].key@ == key@ && !entries@[j].external),
        decreases entries@.len() - i,
    {
        if !entries[i].external && entries[i].key.eq(key) {
            return true;
        }
        i = i + 1;
    }
    false
}

/// Whether some interface of the schema has the given snake_case name.
fn proto_declares_key(proto: &Protocol, key: &String) -> (r: bool)
    ensures
        r == exists|i: int|
            0 <= i < proto.interfaces@.len() && snake_of(proto.interfaces@[i].name@) == key@,
{
    let mut i: usize = 0;
    while i < proto.interfaces.len()
        invariant
            0 <= i <= proto.interfaces@.len(),
            forall|j: int| 0 <= j < i ==> snake_of(proto.interfaces@[j].name@) != key@,
        decreases proto.interfaces@.len() - i,
    {
        let k = to_snake(proto.interfaces[i].name.as_str());
        if k.eq(key) {
            return true;
        }
        i = i + 1;
    }
    false
}

impl BindingSet {
    /// Structural invariant: snake_case keys are unique, so an interface is
    /// bound at most once.
    pub open spec fn wf(&self) -> bool {
        forall|i: int, j: int|
            0 <= i < j < self.entries@.len() ==> self.entries@[i].key@ != self.entries@[j].key@
    }

    /// An empty set.
    pub fn new() -> (r: BindingSet)
        ensures
            r.entries@ == Seq::<Binding>::empty(),
            r.wf(),
    {
        BindingSet { entries: Vec::new() }
    }

    /// Declare a binding. Two declarations for one interface (compared in
    /// snake_case form) are a compile-time error, and the set is unchanged.
    #[verifier::loop_isolation(false)]
    pub fn insert(&mut self, interface: String, implementation: String, external: bool) -> (r:
        Result<(), CompileError>)
        requires
            old(self).wf(),
        ensures
            final(self).wf(),
            match r {
                Ok(()) => {
                    &&& !has_key(old(self).entries@, snake_of(interface@))
                    &&& final(self).entries@.len() == old(self).entries@.len() + 1
                    &&& forall|j: int|
                        0 <= j < old(self).entries@.len() ==> final(self).entries@[j] == old(
                            self,
                        ).entries@[j]
                    &&& final(self).entries@.last().interface == interface
                    &&& final(self).entries@.last().key@ == snake_of(interface@)
                    &&& final(self).entries@.last().implementation == implementation
                    &&& final(self).entries@.last().external == external
                },
                Err(CompileError::DuplicateBinding { interface: i2 }) => {
                    &&& has_key(old(self).entries@, snake_of(interface@))
                    &&& i2 == interface
                    &&& *final(self) == *old(self)
                },
                Err(_) => false,
            },
    {
        let key = to_snake(interface.as_str());
        let mut i: usize = 0;
        while i < self.entries.len()
            invariant
                0 <= i <= self.entries@.len(),
                forall|j: int| 0 <= j < i ==> self.entries@[j].key@ != key@,
            decreases self.entries@.len() - i,
        {
            if self.entries[i].key.eq(&key) {
                return Err(CompileError::DuplicateBinding { interface });
            }
            i = i + 1;
        }
        self.entries.push(Binding { interface, key, implementation, external });
        Ok(())
    }

    /// Whether a non-external binding realises the interface of the given
    /// name, so that a contract and dispatch are generated for it.
    pub fn binds(&self, name: &String) -> (r: bool)
        ensures
            r == has_nonexternal(self.entries@, snake_of(name@)),
    {
        let key = to_snake(name.as_str());
        find_nonexternal(&self.entries, &key)
    }

    /// The binding for the given interface name (compared in snake_case
    /// form), if any.
    #[verifier::loop_isolation(false)]
    pub fn find(&self, name: &String) -> (r: Option<&Binding>)
        ensures
            match r {
                Some(b) => {
                    &&& b.key@ == snake_of(name@)
                    &&& exists|i: int| 0 <= i < self.entries@.len() && self.entries@[i] == *b
                    &&& has_key(self.entries@, snake_of(name@))
                },
                None => !has_key(self.entries@, snake_of(name@)),
            },
    {
        let key = to_snake(name.as_str());
        let mut i: usize = 0;
        while i < self.entries.len()
            invariant
                0 <= i <= self.entries@.len(),
                forall|j: int| 0 <= j < i ==> self.entries@[j].key@ != key@,
            decreases self.entries@.len() - i,
        {
            if self.entries[i].key.eq(&key) {
                return Some(&self.entries[i]);
            }
            i = i + 1;
        }
        None
    }
}

/// The read-only product of a successful resolution: the validated binding
/// set, consumed by every downstream compiler pass.
#[derive(Debug)]
pub struct ResolutionContext {
    pub bindings: BindingSet,
}

/// Check the embedder's bindings against the schema. Resolution is purely
/// structural and deterministic: it succeeds exactly when every non-external
/// binding names a declared interface and every interface that will be
/// compiled has each statically referenced interface realised by a
/// non-external binding; otherwise it reports the first offence found, as
/// an `UnknownInterface` or an `UnresolvedDependency` naming the owning
/// interface and the missing one.
#[verifier::loop_isolation(false)]
pub fn resolve(proto: &Protocol, bindings: BindingSet) -> (r: Result<
    ResolutionContext,
    CompileError,
>)
    requires
        bindings.wf(),
    ensures
        match r {
            Ok(ctx) => {
                &&& ctx.bindings.entries@ == bindings.entries@
                &&& ctx.bindings.wf()
                &&& all_bindings_known(bindings.entries@, *proto)
                &&& all_refs_resolved(*proto, bindings.entries@)
            },
            Err(CompileError::UnknownInterface { declared_name }) => exists|i: int|
                0 <= i < bindings.entries@.len() && !binding_known(
                    #[trigger] bindings.entries@[i],
                    *proto,
                ) && declared_name == bindings.entries@[i].interface,
            Err(CompileError::UnresolvedDependency { owner_interface, missing_interface }) => {
                &&& all_bindings_known(bindings.entries@, *proto)
                &&& unresolved_witness(
                    *proto,
                    bindings.entries@,
                    owner_interface@,
                    missing_interface@,
                )
            },
            Err(_) => false,
        },
{
    let mut bi: usize = 0;
    while bi < bindings.entries.len()
        invariant
            0 <= bi <= bindings.entries@.len(),
            forall|j: int| 0 <= j < bi ==> binding_known(#[trigger] bindings.entries@[j], *proto),
        decreases bindings.entries@.len() - bi,
    {
        let b = &bindings.entries[bi];
        if !b.external {
            if !proto_declares_key(proto, &b.key) {
                return Err(CompileError::UnknownInterface { declared_name: b.interface.clone() });
            }
        }
        bi = bi + 1;
    }
    let mut ii: usize = 0;
    while ii < proto.interfaces.len()
        invariant
            0 <= ii <= proto.interfaces@.len(),
            forall|j: int|
                0 <= j < ii ==> (interface_bound(#[trigger] proto.interfaces@[j], bindings.entries@)
                    ==> iface_args_resolved(proto.interfaces@[j], bindings.entries@)),
        decreases proto.interfaces@.len() - ii,
    {
        let iface = &proto.interfaces[ii];
        let key = to_snake(iface.name.as_str());
        if find_nonexternal(&bindings.entries, &key) {
            let mut ri: usize = 0;
            while ri < iface.requests.len()
                invariant
                    0 <= ri <= iface.requests@.len(),
                    forall|j: int|
                        0 <= j < ri ==> request_args_resolved(
                            #[trigger] iface.requests@[j],
                            bindings.entries@,
                        ),
                decreases iface.requests@.len() - ri,
            {
                let req = &iface.requests[ri];
                let mut ai: usize = 0;
                while ai < req.args.len()
                    invariant
                        0 <= ai <= req.args@.len(),
                        forall|j: int|
                            0 <= j < ai ==> (arg_needs_binding(#[trigger] req.args@[j])
                                ==> has_nonexternal(
                                bindings.entries@,
                                snake_of(req.args@[j].interface->Some_0@),
                            )),
                    decreases req.args@.len() - ai,
                {
                    let arg = &req.args[ai];
                    let needs = match arg.kind {
                        crate::protocol::DataType::Object => true,
                        crate::protocol::DataType::NewId => true,
                        _ => false,
                    };
                    if needs {
                        match &arg.interface {
                            Some(n) => {
                                let nk = to_snake(n.as_str());
                                if !find_nonexternal(&bindings.entries, &nk) {
                                    proof {
                                        assert(unresolved_witness(
                                            *proto,
                                            bindings.entries@,
                                            iface.name@,
                                            n@,
                                        ));
                                    }
                                    return Err(
                                        CompileError::UnresolvedDependency {
                                            owner_interface: iface.name.clone(),
                                            missing_interface: n.clone(),
                                        },
                                    );
                                }
                            },
                            None => {},
                        }
                    }
                    ai = ai + 1;
                }
                ri = ri + 1;
            }
            let mut ei: usize = 0;
            while ei < iface.events.len()
                invariant
                    0 <= ei <= iface.events@.len(),
                    forall|j: int|
                        0 <= j < ei ==> event_args_resolved(
                            #[trigger] iface.events@[j],
                            bindings.entries@,
                        ),
                decreases iface.events@.len() - ei,
            {
                let ev = &iface.events[ei];
                let mut ai: usize = 0;
                while ai < ev.args.len()
                    invariant
                        0 <= ai <= ev.args@.len(),
                        forall|j: int|
                            0 <= j < ai ==> (arg_needs_binding(#[trigger] ev.args@[j])
                                ==> has_nonexternal(
                                bindings.entries@,
                                snake_of(ev.args@[j].interface->Some_0@),
                            )),
                    decreases ev.args@.len() - ai,
                {
                    let arg = &ev.args[ai];
                    let needs = match arg.kind {
                        crate::protocol::DataType::Object => true,
                        crate::protocol::DataType::NewId => true,
                        _ => false,
                    };
                    if needs {
                        match &arg.interface {
                            Some(n) => {
                                let nk = to_snake(n.as_str());
                                if !find_nonexternal(&bindings.entries, &nk) {
                                    proof {
                                        assert(unresolved_witness(
                                            *proto,
                                            bindings.entries@,
                                            iface.name@,
                                            n@,
                                        ));
                                    }
                                    return Err(
                                        CompileError::UnresolvedDependency {
                                            owner_interface: iface.name.clone(),
                                            missing_interface: n.clone(),
                                        },
                                    );
                                }
                            },
                            None => {},
                        }
                    }
                    ai = ai + 1;
                }
                ei = ei + 1;
            }
        }
        ii = ii + 1;
    }
    Ok(ResolutionContext { bindings })
}

} // verus!
