//! The interface compiler: for each interface realised by a non-external
//! binding it derives the behavioural contract — one method signature per
//! request (the embedder supplies the body) and one per event (the
//! generated body encodes and transmits) — together with the trace format
//! string of every method; and for every interface, bound or not, it
//! compiles the declared enums. `compile_protocol` drives the whole pass:
//! validate the schema, resolve the bindings, compile.

use vstd::prelude::*;
use vstd::string::StringExecFns;

use crate::binding::{
    all_bindings_known, all_refs_resolved, arg_needs_binding, has_key, has_nonexternal,
    interface_bound, request_arg_unresolved, unresolved_witness, Binding, BindingSet,
    ResolutionContext, resolve,
};
use crate::casing::{camel_of, snake_of, to_camel, to_snake};
use crate::enums::{compile_enum, enum_compiled, enum_entry_collision, EnumType};
use crate::error::CompileError;
use crate::protocol::{Arg, DataType, Enum, Event, Interface, Protocol, Request};

verus! {

/// The exposed shape of one method parameter, per the argument codec rules.
#[derive(Debug)]
pub enum ParamType {
    /// Signed 32-bit integer.
    Int,
    /// Unsigned 32-bit integer.
    Uint,
    /// Signed 24.8 fixed-point value (its raw 32-bit pattern).
    Fixed,
    /// String (a byte string at the codec boundary).
    Str,
    /// Opaque byte blob.
    Array,
    /// Raw descriptor handle.
    Fd,
    /// Exclusive typed handle to the named implementation.
    Lease(String),
    /// Exclusive handle typed only as "any object".
    LeaseAny,
    /// Borrowed reference to the emitting side's object (event parameter).
    ObjectRef,
    /// Token carrying a statically typed new id.
    NewId,
    /// Token carrying id, interface name and version named at runtime.
    NewIdDynamic,
}

/// The parameter shape a request method exposes for `arg`, resolved against
/// the bindings: a statically typed object argument becomes an exclusive
/// lease on the bound implementation.
pub open spec fn param_for_request(p: ParamType, arg: Arg, bs: Seq<Binding>) -> bool {
    match arg.kind {
        DataType::Int => p is Int,
        DataType::Uint => p is Uint,
        DataType::Fixed => p is Fixed,
        DataType::String => p is Str,
        DataType::Array => p is Array,
        DataType::Fd => p is Fd,
        DataType::Object => match arg.interface {
            Some(n) => match p {
                ParamType::Lease(im) => exists|i: int|
                    0 <= i < bs.len() && (#[trigger] bs[i]).key@ == snake_of(n@) && im@
                        == bs[i].implementation@,
                _ => false,
            },
            None => p is LeaseAny,
        },
        DataType::NewId => if arg.interface is Some {
            p is NewId
        } else {
            p is NewIdDynamic
        },
    }
}

/// The parameter shape an event method exposes for `arg`.
pub open spec fn spec_event_param(arg: Arg) -> ParamType {
    match arg.kind {
        DataType::Int => ParamType::Int,
        DataType::Uint => ParamType::Uint,
        DataType::Fixed => ParamType::Fixed,
        DataType::String => ParamType::Str,
        DataType::Array => ParamType::Array,
        DataType::Fd => ParamType::Fd,
        DataType::Object => ParamType::ObjectRef,
        DataType::NewId => if arg.interface is Some {
            ParamType::NewId
        } else {
            ParamType::NewIdDynamic
        },
    }
}

impl Arg {
    /// The parameter type a request method exposes for this argument. A
    /// statically typed object argument needs the referenced interface's
    /// binding; without one, compilation fails, naming the owning interface
    /// and the missing one.
    pub fn request_data_type(&self, owning_interface: &String, ctx: &ResolutionContext) -> (r:
        Result<ParamType, CompileError>)
        ensures
            match r {
                Ok(p) => param_for_request(p, *self, ctx.bindings.entries@),
                Err(CompileError::UnresolvedDependency { owner_interface, missing_interface }) => {
                    &&& self.kind is Object
                    &&& self.interface is Some
                    &&& missing_interface@ == self.interface->Some_0@
                    &&& owner_interface@ == owning_interface@
                    &&& !has_key(ctx.bindings.entries@, snake_of(missing_interface@))
                },
                Err(_) => false,
            },
    {
        match self.kind {
            DataType::Int => Ok(ParamType::Int),
            DataType::Uint => Ok(ParamType::Uint),
            DataType::Fixed => Ok(ParamType::Fixed),
            DataType::String => Ok(ParamType::Str),
            DataType::Array => Ok(ParamType::Array),
            DataType::Fd => Ok(ParamType::Fd),
            DataType::Object => match &self.interface {
                Some(n) => match ctx.bindings.find(n) {
                    Some(b) => Ok(ParamType::Lease(b.implementation.clone())),
                    None => Err(
                        CompileError::UnresolvedDependency {
                            owner_interface: owning_interface.clone(),
                            missing_interface: n.clone(),
                        },
                    ),
                },
                None => Ok(ParamType::LeaseAny),
            },
            DataType::NewId => match &self.interface {
                Some(_) => Ok(ParamType::NewId),
                None => Ok(ParamType::NewIdDynamic),
            },
        }
    }

    /// The parameter type an event method exposes for this argument. Total:
    /// event parameters never need a binding.
    pub fn event_data_type(&self) -> (r: ParamType)
        ensures
            r == spec_event_param(*self),
    {
        match self.kind {
            DataType::Int => ParamType::Int,
            DataType::Uint => ParamType::Uint,
            DataType::Fixed => ParamType::Fixed,
            DataType::String => ParamType::Str,
            DataType::Array => ParamType::Array,
            DataType::Fd => ParamType::Fd,
            DataType::Object => ParamType::ObjectRef,
            DataType::NewId => match &self.interface {
                Some(_) => ParamType::NewId,
                None => ParamType::NewIdDynamic,
            },
        }
    }
}

/// The trace fragments of all arguments after the first, each preceded by
/// the separator.
pub open spec fn spec_fragments_rest(args: Seq<Arg>) -> Seq<char>
    decreases args.len(),
{
    if args.len() == 0 {
        Seq::empty()
    } else {
        ", "@ + args[0].spec_debug_string() + spec_fragments_rest(args.drop_first())
    }
}

/// The trace fragments of an argument list, separated by `", "`.
pub open spec fn spec_fragments(args: Seq<Arg>) -> Seq<char> {
    if args.len() == 0 {
        Seq::empty()
    } else {
        args[0].spec_debug_string() + spec_fragments_rest(args.drop_first())
    }
}

/// The whole trace format string of one method: the prefix (which carries
/// the `interface@id.member` placeholders), the argument fragments, and the
/// closing parenthesis.
pub open spec fn spec_trace_format(prefix: Seq<char>, args: Seq<Arg>) -> Seq<char> {
    prefix + spec_fragments(args) + ")"@
}

/// Appending one argument appends its fragment (with a separator unless it
/// is the first).
pub proof fn lemma_fragments_rest_snoc(args: Seq<Arg>, a: Arg)
    ensures
        spec_fragments_rest(args.push(a)) == spec_fragments_rest(args) + ", "@
            + a.spec_debug_string(),
    decreases args.len(),
{
    if args.len() == 0 {
        assert(args.push(a).drop_first() =~= Seq::<Arg>::empty());
        assert(args.push(a)[0] == a);
        assert(spec_fragments_rest(Seq::<Arg>::empty()) == Seq::<char>::empty());
        assert(spec_fragments_rest(args.push(a)) =~= spec_fragments_rest(args) + ", "@
            + a.spec_debug_string());
    } else {
        assert(args.push(a).drop_first() =~= args.drop_first().push(a));
        assert(args.push(a)[0] == args[0]);
        lemma_fragments_rest_snoc(args.drop_first(), a);
        assert(spec_fragments_rest(args.push(a)) =~= spec_fragments_rest(args) + ", "@
            + a.spec_debug_string());
    }
}

/// Appending one argument appends its fragment (with a separator unless it
/// is the first).
pub proof fn lemma_fragments_snoc(args: Seq<Arg>, a: Arg)
    ensures
        args.len() == 0 ==> spec_fragments(args.push(a)) == a.spec_debug_string(),
        args.len() > 0 ==> spec_fragments(args.push(a)) == spec_fragments(args) + ", "@
            + a.spec_debug_string(),
{
    if args.len() == 0 {
        assert(args.push(a).drop_first() =~= Seq::<Arg>::empty());
        assert(args.push(a)[0] == a);
        assert(spec_fragments_rest(Seq::<Arg>::empty()) == Seq::<char>::empty());
        assert(spec_fragments(args.push(a)) =~= a.spec_debug_string());
    } else {
        assert(args.push(a).drop_first() =~= args.drop_first().push(a));
        assert(args.push(a)[0] == args[0]);
        lemma_fragments_rest_snoc(args.drop_first(), a);
        assert(spec_fragments(args.push(a)) =~= spec_fragments(args) + ", "@
            + a.spec_debug_string());
    }
}

/// Build one method's trace format string: the prefix, one fragment per
/// argument separated by `", "`, and a closing parenthesis. When the
/// process-wide debug toggle is on, the runtime prints one such line per
/// dispatched request or emitted event, with strings quoted and other
/// values bare.
#[verifier::loop_isolation(false)]
pub fn build_trace_format(prefix: &str, args: &Vec<Arg>) -> (r: String)
    ensures
        r@ == spec_trace_format(prefix@, args@),
{
    let mut s = String::from_str(prefix);
    let mut i: usize = 0;
    proof {
        assert(args@.take(0) =~= Seq::<Arg>::empty());
    }
    while i < args.len()
        invariant
            0 <= i <= args@.len(),
            s@ == prefix@ + spec_fragments(args@.take(i as int)),
        decreases args@.len() - i,
    {
        if i > 0 {
            s.append(", ");
        }
        s.append(args[i].debug_string());
        proof {
            lemma_fragments_snoc(args@.take(i as int), args@[i as int]);
            assert(args@.take(i as int + 1) =~= args@.take(i as int).push(args@[i as int]));
        }
        i = i + 1;
    }
    s.append(")");
    proof {
        assert(args@.take(args@.len() as int) =~= args@);
    }
    s
}

/// One generated method: its snake_case name, its parameter shapes in
/// declared order, and its trace format string.
#[derive(Debug)]
pub struct MethodSig {
    pub name: String,
    pub params: Vec<ParamType>,
    pub trace_format: String,
}

/// What a correctly compiled request method looks like.
pub open spec fn method_matches_request(m: MethodSig, req: Request, bs: Seq<Binding>) -> bool {
    &&& m.name@ == snake_of(req.name@)
    &&& m.trace_format@ == spec_trace_format("{}@{}.{}("@, req.args@)
    &&& m.params@.len() == req.args@.len()
    &&& forall|a: int|
        0 <= a < req.args@.len() ==> param_for_request(
            #[trigger] m.params@[a],
            req.args@[a],
            bs,
        )
}

/// What a correctly compiled event method looks like.
pub open spec fn method_matches_event(m: MethodSig, ev: Event) -> bool {
    &&& m.name@ == snake_of(ev.name@)
    &&& m.trace_format@ == spec_trace_format("{}@{}.{}("@, ev.args@)
    &&& m.params@.len() == ev.args@.len()
    &&& forall|a: int|
        0 <= a < ev.args@.len() ==> #[trigger] m.params@[a] == spec_event_param(ev.args@[a])
}

/// The behavioural contract of one interface: the generated trait's name,
/// the interface's protocol name and version, the bound implementation (if
/// the interface is bound), one method signature per request and one per
/// event.
#[derive(Debug)]
pub struct InterfaceContract {
    pub rust_name: String,
    pub interface: String,
    pub version: u32,
    pub implementation: Option<String>,
    pub requests: Vec<MethodSig>,
    pub events: Vec<MethodSig>,
}

/// What a correctly compiled interface contract looks like.
pub open spec fn contract_matches(c: InterfaceContract, iface: Interface, bs: Seq<Binding>) -> bool {
    &&& c.interface@ == iface.name@
    &&& c.rust_name@ == camel_of(iface.name@)
    &&& c.version == iface.version
    &&& match c.implementation {
        Some(im) => exists|i: int|
            0 <= i < bs.len() && (#[trigger] bs[i]).key@ == snake_of(iface.name@) && im@
                == bs[i].implementation@,
        None => !has_key(bs, snake_of(iface.name@)),
    }
    &&& c.requests@.len() == iface.requests@.len()
    &&& forall|r: int|
        0 <= r < iface.requests@.len() ==> method_matches_request(
            #[trigger] c.requests@[r],
            iface.requests@[r],
            bs,
        )
    &&& c.events@.len() == iface.events@.len()
    &&& forall|e: int|
        0 <= e < iface.events@.len() ==> method_matches_event(
            #[trigger] c.events@[e],
            iface.events@[e],
        )
}

/// Every statically referencing argument of the request has a binding
/// (external or not) for its referenced interface, so generated decode
/// machinery can always name a concrete type.
pub open spec fn request_refs_keyed_one(req: Request, bs: Seq<Binding>) -> bool {
    forall|a: int|
        0 <= a < req.args@.len() ==> (arg_needs_binding(#[trigger] req.args@[a]) ==> has_key(
            bs,
            snake_of(req.args@[a].interface->Some_0@),
        ))
}

/// Every statically referencing request argument of the interface has a
/// binding for its referenced interface.
pub open spec fn request_refs_keyed(iface: Interface, bs: Seq<Binding>) -> bool {
    forall|r: int|
        0 <= r < iface.requests@.len() ==> request_refs_keyed_one(
            #[trigger] iface.requests@[r],
            bs,
        )
}

/// Compile one interface's behavioural contract against the resolved
/// bindings. Fails exactly where a statically typed object or new-id
/// argument of a request references an interface no binding realises, so an
/// unresolved static reference can never yield a compiled contract.
#[verifier::loop_isolation(false)]
pub fn compile_interface(iface: &Interface, ctx: &ResolutionContext) -> (r: Result<
    InterfaceContract,
    CompileError,
>)
    ensures
        match r {
            Ok(c) => {
                &&& contract_matches(c, *iface, ctx.bindings.entries@)
                &&& request_refs_keyed(*iface, ctx.bindings.entries@)
            },
            Err(CompileError::UnresolvedDependency { owner_interface, missing_interface }) => {
                &&& owner_interface@ == iface.name@
                &&& !has_key(ctx.bindings.entries@, snake_of(missing_interface@))
                &&& request_arg_unresolved(*iface, ctx.bindings.entries@, missing_interface@)
            },
            Err(_) => false,
        },
{
    let rust_name = to_camel(iface.name.as_str());
    let implementation: Option<String> = match ctx.bindings.find(&iface.name) {
        Some(b) => Some(b.implementation.clone()),
        None => None,
    };
    let mut requests: Vec<MethodSig> = Vec::new();
    let mut ri: usize = 0;
    while ri < iface.requests.len()
        invariant
            0 <= ri <= iface.requests@.len(),
            requests@.len() == ri,
            forall|r: int|
                0 <= r < ri ==> method_matches_request(
                    #[trigger] requests@[r],
                    iface.requests@[r],
                    ctx.bindings.entries@,
                ),
            forall|r: int|
                0 <= r < ri ==> request_refs_keyed_one(
                    #[trigger] iface.requests@[r],
                    ctx.bindings.entries@,
                ),
        decreases iface.requests@.len() - ri,
    {
        let req = &iface.requests[ri];
        let mut params: Vec<ParamType> = Vec::new();
        let mut ai: usize = 0;
        while ai < req.args.len()
            invariant
                0 <= ai <= req.args@.len(),
                params@.len() == ai,
                forall|a: int|
                    0 <= a < ai ==> param_for_request(
                        #[trigger] params@[a],
                        req.args@[a],
                        ctx.bindings.entries@,
                    ),
                forall|a: int|
                    0 <= a < ai ==> (arg_needs_binding(#[trigger] req.args@[a]) ==> has_key(
                        ctx.bindings.entries@,
                        snake_of(req.args@[a].interface->Some_0@),
                    )),
            decreases req.args@.len() - ai,
        {
            let arg = &req.args[ai];
            let needs = match arg.kind {
                DataType::Object => true,
                DataType::NewId => true,
                _ => false,
            };
            if needs {
                match &arg.interface {
                    Some(n) => {
                        if ctx.bindings.find(n).is_none() {
                            proof {
                                assert(arg_needs_binding(req.args@[ai as int]));
                                if has_nonexternal(ctx.bindings.entries@, snake_of(n@)) {
                                    let wi = choose|wi: int|
                                        0 <= wi < ctx.bindings.entries@.len()
                                            && ctx.bindings.entries@[wi].key@ == snake_of(n@)
                                            && !ctx.bindings.entries@[wi].external;
                                    assert(has_key(ctx.bindings.entries@, snake_of(n@)));
                                }
                                assert(request_arg_unresolved(
                                    *iface,
                                    ctx.bindings.entries@,
                                    n@,
                                ));
                            }
                            return Err(
                                CompileError::UnresolvedDependency {
                                    owner_interface: iface.name.clone(),
                                    missing_interface: n.clone(),
                                },
                            );
                        }
                    },
                    None => {},
                }
            }
            match req.args[ai].request_data_type(&iface.name, ctx) {
                Ok(p) => {
                    params.push(p);
                },
                Err(e) => {
                    proof {
                        match &e {
                            CompileError::UnresolvedDependency {
                                owner_interface: o,
                                missing_interface: m,
                            } => {
                                assert(crate::binding::arg_needs_binding(req.args@[ai as int]));
                                assert(!has_nonexternal(ctx.bindings.entries@, snake_of(m@)));
                                assert(request_arg_unresolved(*iface, ctx.bindings.entries@, m@));
                            },
                            _ => {},
                        }
                    }
                    return Err(e);
                },
            }
            ai = ai + 1;
        }
        requests.push(
            MethodSig {
                name: to_snake(req.name.as_str()),
                params,
                trace_format: build_trace_format("{}@{}.{}(", &req.args),
            },
        );
        ri = ri + 1;
    }
    let mut events: Vec<MethodSig> = Vec::new();
    let mut ei: usize = 0;
    while ei < iface.events.len()
        invariant
            0 <= ei <= iface.events@.len(),
            events@.len() == ei,
            forall|e: int|
                0 <= e < ei ==> method_matches_event(#[trigger] events@[e], iface.events@[e]),
        decreases iface.events@.len() - ei,
    {
        let ev = &iface.events[ei];
        let mut params: Vec<ParamType> = Vec::new();
        let mut ai: usize = 0;
        while ai < ev.args.len()
            invariant
                0 <= ai <= ev.args@.len(),
                params@.len() == ai,
                forall|a: int|
                    0 <= a < ai ==> #[trigger] params@[a] == spec_event_param(ev.args@[a]),
            decreases ev.args@.len() - ai,
        {
            let p = ev.args[ai].event_data_type();
            params.push(p);
            ai = ai + 1;
        }
        events.push(
            MethodSig {
                name: to_snake(ev.name.as_str()),
                params,
                trace_format: build_trace_format("{}@{}.{}(", &ev.args),
            },
        );
        ei = ei + 1;
    }
    Ok(
        InterfaceContract {
            rust_name,
            interface: iface.name.clone(),
            version: iface.version,
            implementation,
            requests,
            events,
        },
    )
}

/// Whether the interface at one position fails the version floor.
pub open spec fn bad_version_witness(proto: Protocol, iface: Seq<char>, version: u32) -> bool {
    exists|i: int|
        0 <= i < proto.interfaces@.len() && (#[trigger] proto.interfaces@[i]).version < 1 && iface
            == proto.interfaces@[i].name@ && version == proto.interfaces@[i].version
}

/// Two interfaces of the protocol share the name `name`.
pub open spec fn dup_interface_witness(proto: Protocol, name: Seq<char>) -> bool {
    exists|i: int, j: int|
        0 <= i < j < proto.interfaces@.len() && (#[trigger] proto.interfaces@[i]).name@ == (
        #[trigger] proto.interfaces@[j]).name@ && name == proto.interfaces@[j].name@
}

/// Two requests or two events of the interface named `iface` share the name
/// `name`.
pub open spec fn dup_message_witness(proto: Protocol, iface: Seq<char>, name: Seq<char>) -> bool {
    exists|i: int|
        #![auto]
        0 <= i < proto.interfaces@.len() && iface == proto.interfaces@[i].name@ && {
            let it = proto.interfaces@[i];
            ||| (exists|a: int, b: int|
                0 <= a < b < it.requests@.len() && (#[trigger] it.requests@[a]).name@ == (
                #[trigger] it.requests@[b]).name@ && name == it.requests@[b].name@)
            ||| (exists|a: int, b: int|
                0 <= a < b < it.events@.len() && (#[trigger] it.events@[a]).name@ == (
                #[trigger] it.events@[b]).name@ && name == it.events@[b].name@)
        }
}

/// The pairwise form of one interface's structural invariant.
pub open spec fn iface_names_ok(iface: Interface) -> bool {
    &&& iface.version >= 1
    &&& forall|a: int, b: int|
        0 <= a < b < iface.requests@.len() ==> (#[trigger] iface.requests@[a]).name@ != (
        #[trigger] iface.requests@[b]).name@
    &&& forall|a: int, b: int|
        0 <= a < b < iface.events@.len() ==> (#[trigger] iface.events@[a]).name@ != (
        #[trigger] iface.events@[b]).name@
}

/// Check the schema model's structural invariants: unique interface names,
/// a positive version on each interface, and unique request and event names
/// within each interface. An inconsistent schema aborts compilation, naming
/// the offending element.
#[verifier::loop_isolation(false)]
pub fn validate(proto: &Protocol) -> (r: Result<(), CompileError>)
    ensures
        match r {
            Ok(()) => proto.wf(),
            Err(CompileError::DuplicateInterface { name }) => dup_interface_witness(*proto, name@),
            Err(CompileError::InvalidVersion { interface, version }) => bad_version_witness(
                *proto,
                interface@,
                version,
            ),
            Err(CompileError::DuplicateMessage { interface, name }) => dup_message_witness(
                *proto,
                interface@,
                name@,
            ),
            Err(_) => false,
        },
{
    let mut i: usize = 0;
    while i < proto.interfaces.len()
        invariant
            0 <= i <= proto.interfaces@.len(),
            forall|a: int, b: int|
                0 <= a < b < proto.interfaces@.len() && a < i ==> (
                #[trigger] proto.interfaces@[a]).name@ != (#[trigger] proto.interfaces@[b]).name@,
            forall|a: int| 0 <= a < i ==> iface_names_ok(#[trigger] proto.interfaces@[a]),
        decreases proto.interfaces@.len() - i,
    {
        let iface = &proto.interfaces[i];
        let mut j: usize = i + 1;
        while j < proto.interfaces.len()
            invariant
                i < j <= proto.interfaces@.len(),
                forall|b: int|
                    i < b < j ==> (#[trigger] proto.interfaces@[b]).name@ != proto.interfaces@[
                        i as int].name@,
            decreases proto.interfaces@.len() - j,
        {
            if proto.interfaces[j].name.eq(&iface.name) {
                return Err(CompileError::DuplicateInterface { name: iface.name.clone() });
            }
            j = j + 1;
        }
        if iface.version < 1 {
            return Err(
                CompileError::InvalidVersion {
                    interface: iface.name.clone(),
                    version: iface.version,
                },
            );
        }
        let mut a: usize = 0;
        while a < iface.requests.len()
            invariant
                0 <= a <= iface.requests@.len(),
                forall|x: int, y: int|
                    0 <= x < y < iface.requests@.len() && x < a ==> (
                    #[trigger] iface.requests@[x]).name@ != (#[trigger] iface.requests@[y]).name@,
            decreases iface.requests@.len() - a,
        {
            let mut b: usize = a + 1;
            while b < iface.requests.len()
                invariant
                    a < b <= iface.requests@.len(),
                    forall|y: int|
                        a < y < b ==> (#[trigger] iface.requests@[y]).name@ != iface.requests@[
                            a as int].name@,
                decreases iface.requests@.len() - b,
            {
                if iface.requests[b].name.eq(&iface.requests[a].name) {
                    return Err(
                        CompileError::DuplicateMessage {
                            interface: iface.name.clone(),
                            name: iface.requests[b].name.clone(),
                        },
                    );
                }
                b = b + 1;
            }
            a = a + 1;
        }
        let mut a: usize = 0;
        while a < iface.events.len()
            invariant
                0 <= a <= iface.events@.len(),
                forall|x: int, y: int|
                    0 <= x < y < iface.events@.len() && x < a ==> (
                    #[trigger] iface.events@[x]).name@ != (#[trigger] iface.events@[y]).name@,
            decreases iface.events@.len() - a,
        {
            let mut b: usize = a + 1;
            while b < iface.events.len()
                invariant
                    a < b <= iface.events@.len(),
                    forall|y: int|
                        a < y < b ==> (#[trigger] iface.events@[y]).name@ != iface.events@[
                            a as int].name@,
                decreases iface.events@.len() - b,
            {
                if iface.events[b].name.eq(&iface.events[a].name) {
                    return Err(
                        CompileError::DuplicateMessage {
                            interface: iface.name.clone(),
                            name: iface.events[b].name.clone(),
                        },
                    );
                }
                b = b + 1;
            }
            a = a + 1;
        }
        i = i + 1;
    }
    proof {
        let names = proto.interfaces@.map_values(|x: Interface| x.name@);
        assert forall|x: int, y: int| 0 <= x < y < names.len() implies names[x] != names[y] by {
            assert(names[x] == proto.interfaces@[x].name@);
            assert(names[y] == proto.interfaces@[y].name@);
        }
        assert forall|x: int| 0 <= x < proto.interfaces@.len() implies (
        #[trigger] proto.interfaces@[x]).wf() by {
            let it = proto.interfaces@[x];
            assert(iface_names_ok(it));
            let rn = it.requests@.map_values(|q: Request| q.name@);
            assert forall|c: int, d: int| 0 <= c < d < rn.len() implies rn[c] != rn[d] by {
                assert(rn[c] == it.requests@[c].name@);
                assert(rn[d] == it.requests@[d].name@);
            }
            let en = it.events@.map_values(|q: Event| q.name@);
            assert forall|c: int, d: int| 0 <= c < d < en.len() implies en[c] != en[d] by {
                assert(en[c] == it.events@[c].name@);
                assert(en[d] == it.events@[d].name@);
            }
        }
    }
    Ok(())
}

/// The interfaces that are compiled: those realised by a non-external
/// binding, in declaration order.
pub open spec fn spec_bound_list(ifaces: Seq<Interface>, bs: Seq<Binding>) -> Seq<Interface>
    decreases ifaces.len(),
{
    if ifaces.len() == 0 {
        Seq::empty()
    } else if interface_bound(ifaces[0], bs) {
        seq![ifaces[0]] + spec_bound_list(ifaces.drop_first(), bs)
    } else {
        spec_bound_list(ifaces.drop_first(), bs)
    }
}

/// Appending one interface appends it to the compiled list exactly when it
/// is bound.
pub proof fn lemma_bound_list_snoc(ifaces: Seq<Interface>, x: Interface, bs: Seq<Binding>)
    ensures
        interface_bound(x, bs) ==> spec_bound_list(ifaces.push(x), bs) == spec_bound_list(
            ifaces,
            bs,
        ).push(x),
        !interface_bound(x, bs) ==> spec_bound_list(ifaces.push(x), bs) == spec_bound_list(
            ifaces,
            bs,
        ),
    decreases ifaces.len(),
{
    if ifaces.len() == 0 {
        assert(ifaces.push(x).drop_first() =~= Seq::<Interface>::empty());
        assert(ifaces.push(x)[0] == x);
        assert(spec_bound_list(Seq::<Interface>::empty(), bs) == Seq::<Interface>::empty());
        if interface_bound(x, bs) {
            assert(spec_bound_list(ifaces.push(x), bs) =~= spec_bound_list(ifaces, bs).push(x));
        }
    } else {
        assert(ifaces.push(x).drop_first() =~= ifaces.drop_first().push(x));
        assert(ifaces.push(x)[0] == ifaces[0]);
        lemma_bound_list_snoc(ifaces.drop_first(), x, bs);
        if interface_bound(x, bs) {
            assert(spec_bound_list(ifaces.push(x), bs) =~= spec_bound_list(ifaces, bs).push(x));
        }
    }
}

/// The enum declarations of the whole protocol, each with its owning
/// interface's name, in declaration order. Enums are compiled for every
/// interface, bound or not.
pub open spec fn spec_enum_list(ifaces: Seq<Interface>) -> Seq<(Seq<char>, Enum)>
    decreases ifaces.len(),
{
    if ifaces.len() == 0 {
        Seq::empty()
    } else {
        ifaces[0].enums@.map_values(|e: Enum| (ifaces[0].name@, e)) + spec_enum_list(
            ifaces.drop_first(),
        )
    }
}

/// Appending one interface appends its enum declarations.
pub proof fn lemma_enum_list_snoc(ifaces: Seq<Interface>, x: Interface)
    ensures
        spec_enum_list(ifaces.push(x)) == spec_enum_list(ifaces) + x.enums@.map_values(
            |e: Enum| (x.name@, e),
        ),
    decreases ifaces.len(),
{
    if ifaces.len() == 0 {
        assert(ifaces.push(x).drop_first() =~= Seq::<Interface>::empty());
        assert(ifaces.push(x)[0] == x);
        assert(spec_enum_list(Seq::<Interface>::empty()) == Seq::<(Seq<char>, Enum)>::empty());
        assert(spec_enum_list(ifaces.push(x)) =~= spec_enum_list(ifaces) + x.enums@.map_values(
            |e: Enum| (x.name@, e),
        ));
    } else {
        assert(ifaces.push(x).drop_first() =~= ifaces.drop_first().push(x));
        assert(ifaces.push(x)[0] == ifaces[0]);
        lemma_enum_list_snoc(ifaces.drop_first(), x);
        assert(spec_enum_list(ifaces.push(x)) =~= spec_enum_list(ifaces) + x.enums@.map_values(
            |e: Enum| (x.name@, e),
        ));
    }
}

/// A declared enum whose normalised entry names collide, in the interface
/// that owns it.
pub open spec fn enum_dup_witness(proto: Protocol, enumeration: Seq<char>, entry: Seq<char>) -> bool {
    exists|i: int, k: int|
        #![auto]
        0 <= i < proto.interfaces@.len() && 0 <= k < proto.interfaces@[i].enums@.len()
            && enumeration == proto.interfaces@[i].name@ + "."@
            + proto.interfaces@[i].enums@[k].name@ && enum_entry_collision(
            proto.interfaces@[i].name@,
            proto.interfaces@[i].enums@[k],
            entry,
        )
}

/// The whole compiled output: the protocol's snake_case module name, its
/// copyright notice, one behavioural contract per bound interface (in
/// declaration order), and the enum tables of every interface.
#[derive(Debug)]
pub struct CompiledProtocol {
    pub name: String,
    pub copyright: Option<String>,
    pub interfaces: Vec<InterfaceContract>,
    pub enums: Vec<EnumType>,
}

/// Compile a whole protocol against the embedder's bindings: validate the
/// schema, resolve the bindings, and derive a contract for every bound
/// interface and an enum table for every declared enum. There is no partial
/// output: the first offence aborts the compilation with its precise error.
#[verifier::loop_isolation(false)]
pub fn compile_protocol(proto: &Protocol, bindings: BindingSet) -> (r: Result<
    CompiledProtocol,
    CompileError,
>)
    requires
        bindings.wf(),
    ensures
        match r {
            Ok(cp) => {
                &&& proto.wf()
                &&& all_bindings_known(bindings.entries@, *proto)
                &&& all_refs_resolved(*proto, bindings.entries@)
                &&& cp.name@ == snake_of(proto.name@)
                &&& (match (cp.copyright, proto.copyright) {
                    (Some(a), Some(b)) => a@ == b@,
                    (None, None) => true,
                    _ => false,
                })
                &&& cp.interfaces@.len() == spec_bound_list(
                    proto.interfaces@,
                    bindings.entries@,
                ).len()
                &&& (forall|k: int|
                    0 <= k < cp.interfaces@.len() ==> contract_matches(
                        #[trigger] cp.interfaces@[k],
                        spec_bound_list(proto.interfaces@, bindings.entries@)[k],
                        bindings.entries@,
                    ))
                &&& cp.enums@.len() == spec_enum_list(proto.interfaces@).len()
                &&& (forall|k: int|
                    0 <= k < cp.enums@.len() ==> enum_compiled(
                        #[trigger] cp.enums@[k],
                        spec_enum_list(proto.interfaces@)[k].0,
                        spec_enum_list(proto.interfaces@)[k].1,
                    ))
            },
            Err(CompileError::DuplicateInterface { name }) => dup_interface_witness(*proto, name@),
            Err(CompileError::InvalidVersion { interface, version }) => bad_version_witness(
                *proto,
                interface@,
                version,
            ),
            Err(CompileError::DuplicateMessage { interface, name }) => dup_message_witness(
                *proto,
                interface@,
                name@,
            ),
            Err(CompileError::UnknownInterface { declared_name }) => {
                &&& proto.wf()
                &&& exists|i: int|
                    0 <= i < bindings.entries@.len() && !crate::binding::binding_known(
                        #[trigger] bindings.entries@[i],
                        *proto,
                    ) && declared_name == bindings.entries@[i].interface
            },
            Err(CompileError::UnresolvedDependency { owner_interface, missing_interface }) => {
                &&& proto.wf()
                &&& all_bindings_known(bindings.entries@, *proto)
                &&& unresolved_witness(
                    *proto,
                    bindings.entries@,
                    owner_interface@,
                    missing_interface@,
                )
            },
            Err(CompileError::DuplicateEntry { enumeration, entry }) => {
                &&& proto.wf()
                &&& enum_dup_witness(*proto, enumeration@, entry@)
            },
            Err(CompileError::DuplicateBinding { .. }) => false,
        },
{
    match validate(proto) {
        Ok(()) => {},
        Err(e) => {
            return Err(e);
        },
    }
    let ctx = match resolve(proto, bindings) {
        Ok(c) => c,
        Err(e) => {
            return Err(e);
        },
    };
    let name = to_snake(proto.name.as_str());
    let copyright: Option<String> = match &proto.copyright {
        Some(c) => Some(c.clone()),
        None => None,
    };
    let mut contracts: Vec<InterfaceContract> = Vec::new();
    let mut enums: Vec<EnumType> = Vec::new();
    let mut i: usize = 0;
    proof {
        assert(proto.interfaces@.take(0) =~= Seq::<Interface>::empty());
        assert(spec_bound_list(Seq::<Interface>::empty(), ctx.bindings.entries@)
            == Seq::<Interface>::empty());
        assert(spec_enum_list(Seq::<Interface>::empty()) == Seq::<(Seq<char>, Enum)>::empty());
    }
    while i < proto.interfaces.len()
        invariant
            0 <= i <= proto.interfaces@.len(),
            contracts@.len() == spec_bound_list(
                proto.interfaces@.take(i as int),
                ctx.bindings.entries@,
            ).len(),
            forall|k: int|
                0 <= k < contracts@.len() ==> contract_matches(
                    #[trigger] contracts@[k],
                    spec_bound_list(proto.interfaces@.take(i as int), ctx.bindings.entries@)[k],
                    ctx.bindings.entries@,
                ),
            enums@.len() == spec_enum_list(proto.interfaces@.take(i as int)).len(),
            forall|k: int|
                0 <= k < enums@.len() ==> enum_compiled(
                    #[trigger] enums@[k],
                    spec_enum_list(proto.interfaces@.take(i as int))[k].0,
                    spec_enum_list(proto.interfaces@.take(i as int))[k].1,
                ),
        decreases proto.interfaces@.len() - i,
    {
        let iface = &proto.interfaces[i];
        let ghost done = spec_bound_list(proto.interfaces@.take(i as int), ctx.bindings.entries@);
        let ghost edone = spec_enum_list(proto.interfaces@.take(i as int));
        if ctx.bindings.binds(&iface.name) {
            match compile_interface(iface, &ctx) {
                Ok(c) => {
                    contracts.push(c);
                },
                Err(e) => {
                    proof {
                        match &e {
                            CompileError::UnresolvedDependency {
                                owner_interface: o,
                                missing_interface: m,
                            } => {
                                let (rr, aa) = choose|rr: int, aa: int|
                                    0 <= rr < iface.requests@.len() && 0 <= aa
                                        < iface.requests@[rr].args@.len()
                                        && crate::binding::arg_needs_binding(
                                        iface.requests@[rr].args@[aa],
                                    ) && m@ == iface.requests@[rr].args@[aa].interface->Some_0@
                                        && !has_nonexternal(ctx.bindings.entries@, snake_of(m@));
                                assert(crate::binding::request_args_resolved(
                                    iface.requests@[rr],
                                    ctx.bindings.entries@,
                                ));
                                assert(false);
                            },
                            _ => {
                                assert(false);
                            },
                        }
                    }
                    return Err(e);
                },
            }
        }
        let mut k: usize = 0;
        while k < iface.enums.len()
            invariant
                0 <= k <= iface.enums@.len(),
                enums@.len() == edone.len() + k,
                forall|m: int|
                    0 <= m < edone.len() ==> enum_compiled(
                        #[trigger] enums@[m],
                        edone[m].0,
                        edone[m].1,
                    ),
                forall|m: int|
                    0 <= m < k ==> enum_compiled(
                        #[trigger] enums@[edone.len() + m],
                        iface.name@,
                        iface.enums@[m],
                    ),
            decreases iface.enums@.len() - k,
        {
            match compile_enum(&iface.name, &iface.enums[k]) {
                Ok(t) => {
                    enums.push(t);
                },
                Err(e) => {
                    proof {
                        match &e {
                            CompileError::DuplicateEntry { enumeration: en, entry: et } => {
                                assert(enum_dup_witness(*proto, en@, et@));
                            },
                            _ => {
                                assert(false);
                            },
                        }
                    }
                    return Err(e);
                },
            }
            k = k + 1;
        }
        proof {
            assert(proto.interfaces@.take(i as int + 1) =~= proto.interfaces@.take(i as int).push(
                proto.interfaces@[i as int],
            ));
            lemma_bound_list_snoc(
                proto.interfaces@.take(i as int),
                proto.interfaces@[i as int],
                ctx.bindings.entries@,
            );
            lemma_enum_list_snoc(proto.interfaces@.take(i as int), proto.interfaces@[i as int]);
            assert(spec_enum_list(proto.interfaces@.take(i as int + 1)) =~= edone
                + iface.enums@.map_values(|e: Enum| (iface.name@, e)));
            assert forall|m: int|
                0 <= m < enums@.len() implies enum_compiled(
                #[trigger] enums@[m],
                spec_enum_list(proto.interfaces@.take(i as int + 1))[m].0,
                spec_enum_list(proto.interfaces@.take(i as int + 1))[m].1,
            ) by {
                if m >= edone.len() {
                    assert(iface.enums@.map_values(|e: Enum| (iface.name@, e))[m - edone.len()]
                        == (iface.name@, iface.enums@[m - edone.len()]));
                    assert(spec_enum_list(proto.interfaces@.take(i as int + 1))[m]
                        == iface.enums@.map_values(|e: Enum| (iface.name@, e))[m - edone.len()]);
                    let m2 = m - edone.len();
                    assert(enums@[edone.len() + m2] == enums@[m]);
                    assert(enum_compiled(enums@[edone.len() + m2], iface.name@, iface.enums@[m2]));
                } else {
                    assert(spec_enum_list(proto.interfaces@.take(i as int + 1))[m] == edone[m]);
                    assert(enum_compiled(enums@[m], edone[m].0, edone[m].1));
                }
            }
        }
        i = i + 1;
    }
    proof {
        assert(proto.interfaces@.take(proto.interfaces@.len() as int) =~= proto.interfaces@);
    }
    Ok(CompiledProtocol { name, copyright, interfaces: contracts, enums })
}

} // verus!
