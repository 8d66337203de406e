//! The dispatch state machine: one instance per incoming message. The
//! opcode selects a declared request of the target object's interface;
//! the arguments are decoded strictly in declaration order per the argument
//! codec rules; exclusive leases for object arguments are acquired before
//! the handler runs and the table is left untouched on every failure path,
//! so a failed message never leaks a held lease.
//!
//! Invoking the embedder's handler is the embedder's move: a successful
//! dispatch returns the selected request's index and the decoded values,
//! and `release_leases` returns the acquired leases once the handler is
//! done, whether it succeeded or failed.

use vstd::prelude::*;
use vstd::string::StringExecFns;

use crate::args::{
    decode_ok_one, entry_views, lemma_outcome_prepend_compose, lemma_reg_find_at, arg_views,
    ArgValue, ArgValueView, DecodeOutcome, NewId, RegisteredView, outcome_prepend,
    spec_decode_arg, spec_decode_args, reg_has,
};
use crate::codec::{next_bytes, next_fd, next_i32, next_u32, Message};
use crate::error::DispatchError;
use crate::objects::{lemma_table_find_at, table_has, ObjectEntry, ObjectTable};
use crate::protocol::{DataType, Interface, Protocol};

verus! {

/// Every statically typed new-id argument of the interface's requests
/// references an interface that the protocol declares, so its declared
/// version is known. A resolved compilation guarantees this.
pub open spec fn new_id_refs_declared(interface: Interface, proto: Protocol) -> bool {
    forall|r: int, a: int|
        0 <= r < interface.requests@.len() && 0 <= a < interface.requests@[r].args@.len()
            ==> {
            let arg = #[trigger] interface.requests@[r].args@[a];
            arg.kind is NewId && arg.interface is Some ==> proto.declares_interface(
                arg.interface->Some_0@,
            )
        }
}

/// An optional interface name of the error value against an optional name
/// of the decode outcome: both absent, or both present and spelling the
/// same name.
pub open spec fn opt_name_matches(s: Option<String>, v: Option<Seq<char>>) -> bool {
    match (s, v) {
        (Some(a), Some(b)) => a@ == b,
        (None, None) => true,
        _ => false,
    }
}

/// The decode outcome of `msg` against the request its opcode selects,
/// starting from a fresh cursor and the given table.
pub open spec fn spec_dispatch_decode(
    proto: Protocol,
    interface: Interface,
    msg: Message,
    table: Seq<ObjectEntry>,
) -> DecodeOutcome
    recommends
        (msg.opcode as int) < interface.requests@.len(),
{
    spec_decode_args(
        interface.requests@[msg.opcode as int].args@,
        proto,
        msg.payload@,
        0,
        msg.fds@,
        0,
        table,
        Seq::empty(),
        Seq::empty(),
    )
}

/// How a successful dispatch leaves the object table: entries keep their
/// identity, acquired objects are now on loan, and each registered new
/// object stands at the end, on loan to the handler, in registration order.
pub open spec fn table_after_dispatch(
    before: Seq<ObjectEntry>,
    acquired: Seq<u32>,
    registered: Seq<RegisteredView>,
    after: Seq<ObjectEntry>,
) -> bool {
    &&& after.len() == before.len() + registered.len()
    &&& forall|i: int|
        0 <= i < before.len() ==> {
            let e = #[trigger] after[i];
            &&& e.id == before[i].id
            &&& e.interface@ == before[i].interface@
            &&& e.version == before[i].version
            &&& e.leased == (before[i].leased || acquired.contains(before[i].id))
        }
    &&& forall|k: int|
        0 <= k < registered.len() ==> {
            let e = #[trigger] after[before.len() + k];
            &&& e.id == registered[k].id
            &&& e.interface@ == registered[k].interface
            &&& e.version == registered[k].version
            &&& e.leased
        }
}

/// A successfully decoded message, ready for the embedder's handler: the
/// selected request (by declaration index, equal to the opcode), the
/// decoded argument values in declared order, and the ids of the objects
/// leased for its object arguments.
#[derive(Debug)]
pub struct DispatchCall {
    pub request_index: usize,
    pub args: Vec<ArgValue>,
    pub acquired: Vec<u32>,
}

/// Whether `x` stands in `v`.
fn contains_u32(v: &Vec<u32>, x: u32) -> (r: bool)
    ensures
        r == v@.contains(x),
{
    let mut idx: usize = 0;
    while idx < v.len()
        invariant
            0 <= idx <= v@.len(),
            forall|j: int| 0 <= j < idx ==> v@[j] != x,
        decreases v@.len() - idx,
    {
        if v[idx] == x {
            assert(v@.contains(x));
            return true;
        }
        idx = idx + 1;
    }
    assert(!v@.contains(x));
    false
}

/// The first registration holding `id`, if any.
fn reg_index(regs: &Vec<ObjectEntry>, id: u32) -> (r: Option<usize>)
    ensures
        match r {
            Some(k) => {
                &&& k < regs@.len()
                &&& regs@[k as int].id == id
                &&& forall|j: int| 0 <= j < k ==> regs@[j].id != id
            },
            None => !reg_has(entry_views(regs@), id),
        },
{
    let mut idx: usize = 0;
    while idx < regs.len()
        invariant
            0 <= idx <= regs@.len(),
            forall|j: int| 0 <= j < idx ==> regs@[j].id != id,
        decreases regs@.len() - idx,
    {
        if regs[idx].id == id {
            return Some(idx);
        }
        idx = idx + 1;
    }
    assert(forall|j: int|
        0 <= j < entry_views(regs@).len() ==> entry_views(regs@)[j].id == regs@[j].id);
    None
}

/// One successfully decoded argument carries the whole-list decode one
/// argument further.
proof fn lemma_step(
    args0: Seq<crate::protocol::Arg>,
    i: int,
    proto: Protocol,
    payload: Seq<u8>,
    fds: Seq<i32>,
    table: Seq<ObjectEntry>,
    d0: DecodeOutcome,
    vals: Seq<ArgValueView>,
    g_pos: int,
    g_fd: int,
    g_acq: Seq<u32>,
    g_reg: Seq<RegisteredView>,
    v: ArgValueView,
    n_pos: int,
    n_fd: int,
    n_acq: Seq<u32>,
    n_reg: Seq<RegisteredView>,
)
    requires
        0 <= i < args0.len(),
        d0 == outcome_prepend(
            spec_decode_args(args0.skip(i), proto, payload, g_pos, fds, g_fd, table, g_acq, g_reg),
            vals,
        ),
        spec_decode_arg(args0[i], proto, payload, g_pos, fds, g_fd, table, g_acq, g_reg)
            == decode_ok_one(v, n_pos, n_fd, n_acq, n_reg),
    ensures
        d0 == outcome_prepend(
            spec_decode_args(
                args0.skip(i + 1),
                proto,
                payload,
                n_pos,
                fds,
                n_fd,
                table,
                n_acq,
                n_reg,
            ),
            vals.push(v),
        ),
{
    let sargs = args0.skip(i);
    assert(sargs[0] == args0[i]);
    assert(sargs.drop_first() =~= args0.skip(i + 1));
    let rec = spec_decode_args(args0.skip(i + 1), proto, payload, n_pos, fds, n_fd, table, n_acq, n_reg);
    assert(spec_decode_args(sargs, proto, payload, g_pos, fds, g_fd, table, g_acq, g_reg)
        == outcome_prepend(rec, seq![v]));
    lemma_outcome_prepend_compose(rec, vals, seq![v]);
    assert(vals + seq![v] =~= vals.push(v));
}

/// A failed argument decode settles the whole-list decode on that failure.
proof fn lemma_step_fail(
    args0: Seq<crate::protocol::Arg>,
    i: int,
    proto: Protocol,
    payload: Seq<u8>,
    fds: Seq<i32>,
    table: Seq<ObjectEntry>,
    d0: DecodeOutcome,
    vals: Seq<ArgValueView>,
    g_pos: int,
    g_fd: int,
    g_acq: Seq<u32>,
    g_reg: Seq<RegisteredView>,
)
    requires
        0 <= i < args0.len(),
        d0 == outcome_prepend(
            spec_decode_args(args0.skip(i), proto, payload, g_pos, fds, g_fd, table, g_acq, g_reg),
            vals,
        ),
        !(spec_decode_arg(args0[i], proto, payload, g_pos, fds, g_fd, table, g_acq, g_reg)
            is Decoded),
    ensures
        d0 == spec_decode_arg(args0[i], proto, payload, g_pos, fds, g_fd, table, g_acq, g_reg),
{
    let sargs = args0.skip(i);
    assert(sargs[0] == args0[i]);
}

/// Dispatch one incoming message against the target object's interface:
/// select the request by opcode, decode its arguments in declared order,
/// acquire the leases and registrations they call for, and hand the call
/// to the embedder. On any failure the table is exactly as it was.
#[verifier::loop_isolation(false)]
#[verifier::rlimit(60)]
pub fn dispatch(
    proto: &Protocol,
    interface: &Interface,
    table: &mut ObjectTable,
    msg: &Message,
) -> (r: Result<DispatchCall, DispatchError>)
    requires
        old(table).wf(),
        proto.wf(),
        new_id_refs_declared(*interface, *proto),
    ensures
        final(table).wf(),
        match r {
            Ok(call) => {
                &&& (msg.opcode as int) < interface.requests@.len()
                &&& call.request_index == msg.opcode as usize
                &&& (match spec_dispatch_decode(*proto, *interface, *msg, old(table).entries@) {
                    DecodeOutcome::Decoded { values, pos, fd_pos, acquired, registered } => {
                        &&& arg_views(call.args@) == values
                        &&& call.acquired@ == acquired
                        &&& table_after_dispatch(
                            old(table).entries@,
                            acquired,
                            registered,
                            final(table).entries@,
                        )
                    },
                    _ => false,
                })
            },
            Err(e) => {
                &&& *final(table) == *old(table)
                &&& (match e {
                    DispatchError::InvalidOpcode { object, opcode, interface: iname } => {
                        &&& (msg.opcode as int) >= interface.requests@.len()
                        &&& object == msg.object
                        &&& opcode == msg.opcode
                        &&& iname@ == interface.name@
                    },
                    DispatchError::ExpectedArgument { data_type } => {
                        &&& (msg.opcode as int) < interface.requests@.len()
                        &&& (spec_dispatch_decode(*proto, *interface, *msg, old(table).entries@)
                            == DecodeOutcome::Underflow { data_type: data_type@ })
                    },
                    DispatchError::InvalidObject { object, expected, found } => {
                        &&& (msg.opcode as int) < interface.requests@.len()
                        &&& (match spec_dispatch_decode(
                            *proto,
                            *interface,
                            *msg,
                            old(table).entries@,
                        ) {
                            DecodeOutcome::BadObject { object: o, expected: x, found: f } => {
                                &&& object == o
                                &&& opt_name_matches(expected, x)
                                &&& opt_name_matches(found, f)
                            },
                            _ => false,
                        })
                    },
                    DispatchError::NoVariant { .. } => false,
                })
            },
        },
{
    if msg.opcode as usize >= interface.requests.len() {
        return Err(
            DispatchError::InvalidOpcode {
                object: msg.object,
                opcode: msg.opcode,
                interface: interface.name.clone(),
            },
        );
    }
    let request = &interface.requests[msg.opcode as usize];
    let ghost args0 = request.args@;
    let ghost t0 = old(table).entries@;
    let ghost d0 = spec_decode_args(
        args0,
        *proto,
        msg.payload@,
        0,
        msg.fds@,
        0,
        t0,
        Seq::empty(),
        Seq::empty(),
    );
    let mut pos: usize = 0;
    let mut fd_pos: usize = 0;
    let mut values: Vec<ArgValue> = Vec::new();
    let mut acquired: Vec<u32> = Vec::new();
    let mut registered: Vec<ObjectEntry> = Vec::new();
    let mut i: usize = 0;
    proof {
        assert(args0.skip(0) =~= args0);
        crate::args::lemma_outcome_prepend_empty(d0);
        assert(arg_views(values@) =~= Seq::<ArgValueView>::empty());
        assert(entry_views(registered@) =~= Seq::<RegisteredView>::empty());
    }
    while i < request.args.len()
        invariant
            0 <= i <= args0.len(),
            d0 == outcome_prepend(
                spec_decode_args(
                    args0.skip(i as int),
                    *proto,
                    msg.payload@,
                    pos as int,
                    msg.fds@,
                    fd_pos as int,
                    t0,
                    acquired@,
                    entry_views(registered@),
                ),
                arg_views(values@),
            ),
            forall|a: int, b: int|
                0 <= a < b < registered@.len() ==> registered@[a].id != registered@[b].id,
            forall|a: int| 0 <= a < registered@.len() ==> !table_has(t0, registered@[a].id),
            forall|a: int| 0 <= a < registered@.len() ==> registered@[a].leased,
            table.entries@ == t0,
        decreases args0.len() - i,
    {
        let arg = &request.args[i];
        let ghost g_pos = pos as int;
        let ghost g_fd = fd_pos as int;
        let ghost g_acq = acquired@;
        let ghost g_reg = entry_views(registered@);
        let ghost g_regvec = registered@;
        let ghost g_vals = arg_views(values@);
        match arg.kind {
            DataType::Int => {
                match next_i32(&msg.payload, pos) {
                    Some((x, p)) => {
                        proof {
                            lemma_step(
                                args0, i as int, *proto, msg.payload@, msg.fds@, t0, d0, g_vals,
                                g_pos, g_fd, g_acq, g_reg,
                                ArgValueView::Int(x), p as int, g_fd, g_acq, g_reg,
                            );
                        }
                        values.push(ArgValue::Int(x));
                        pos = p;
                    },
                    None => {
                        proof {
                            lemma_step_fail(
                                args0, i as int, *proto, msg.payload@, msg.fds@, t0, d0, g_vals,
                                g_pos, g_fd, g_acq, g_reg,
                            );
                        }
                        return Err(
                            DispatchError::ExpectedArgument {
                                data_type: String::from_str(arg.kind.name()),
                            },
                        );
                    },
                }
            },
            DataType::Uint => {
                match next_u32(&msg.payload, pos) {
                    Some((x, p)) => {
                        proof {
                            lemma_step(
                                args0, i as int, *proto, msg.payload@, msg.fds@, t0, d0, g_vals,
                                g_pos, g_fd, g_acq, g_reg,
                                ArgValueView::Uint(x), p as int, g_fd, g_acq, g_reg,
                            );
                        }
                        values.push(ArgValue::Uint(x));
                        pos = p;
                    },
                    None => {
                        proof {
                            lemma_step_fail(
                                args0, i as int, *proto, msg.payload@, msg.fds@, t0, d0, g_vals,
                                g_pos, g_fd, g_acq, g_reg,
                            );
                        }
                        return Err(
                            DispatchError::ExpectedArgument {
                                data_type: String::from_str(arg.kind.name()),
                            },
                        );
                    },
                }
            },
            DataType::Fixed => {
                match next_i32(&msg.payload, pos) {
                    Some((x, p)) => {
                        proof {
                            lemma_step(
                                args0, i as int, *proto, msg.payload@, msg.fds@, t0, d0, g_vals,
                                g_pos, g_fd, g_acq, g_reg,
                                ArgValueView::Fixed(x), p as int, g_fd, g_acq, g_reg,
                            );
                        }
                        values.push(ArgValue::Fixed(x));
                        pos = p;
                    },
                    None => {
                        proof {
                            lemma_step_fail(
                                args0, i as int, *proto, msg.payload@, msg.fds@, t0, d0, g_vals,
                                g_pos, g_fd, g_acq, g_reg,
                            );
                        }
                        return Err(
                            DispatchError::ExpectedArgument {
                                data_type: String::from_str(arg.kind.name()),
                            },
                        );
                    },
                }
            },
            DataType::String => {
                match next_bytes(&msg.payload, pos) {
                    Some((b, p)) => {
                        proof {
                            lemma_step(
                                args0, i as int, *proto, msg.payload@, msg.fds@, t0, d0, g_vals,
                                g_pos, g_fd, g_acq, g_reg,
                                ArgValueView::Str(b@), p as int, g_fd, g_acq, g_reg,
                            );
                        }
                        values.push(ArgValue::Str(b));
                        pos = p;
                    },
                    None => {
                        proof {
                            lemma_step_fail(
                                args0, i as int, *proto, msg.payload@, msg.fds@, t0, d0, g_vals,
                                g_pos, g_fd, g_acq, g_reg,
                            );
                        }
                        return Err(
                            DispatchError::ExpectedArgument {
                                data_type: String::from_str(arg.kind.name()),
                            },
                        );
                    },
                }
            },
            DataType::Array => {
                match next_bytes(&msg.payload, pos) {
                    Some((b, p)) => {
                        proof {
                            lemma_step(
                                args0, i as int, *proto, msg.payload@, msg.fds@, t0, d0, g_vals,
                                g_pos, g_fd, g_acq, g_reg,
                                ArgValueView::Array(b@), p as int, g_fd, g_acq, g_reg,
                            );
                        }
                        values.push(ArgValue::Array(b));
                        pos = p;
                    },
                    None => {
                        proof {
                            lemma_step_fail(
                                args0, i as int, *proto, msg.payload@, msg.fds@, t0, d0, g_vals,
                                g_pos, g_fd, g_acq, g_reg,
                            );
                        }
                        return Err(
                            DispatchError::ExpectedArgument {
                                data_type: String::from_str(arg.kind.name()),
                            },
                        );
                    },
                }
            },
            DataType::Fd => {
                match next_fd(&msg.fds, fd_pos) {
                    Some((fd, fp)) => {
                        proof {
                            lemma_step(
                                args0, i as int, *proto, msg.payload@, msg.fds@, t0, d0, g_vals,
                                g_pos, g_fd, g_acq, g_reg,
                                ArgValueView::Fd(fd), g_pos, fp as int, g_acq, g_reg,
                            );
                        }
                        values.push(ArgValue::Fd(fd));
                        fd_pos = fp;
                    },
                    None => {
                        proof {
                            lemma_step_fail(
                                args0, i as int, *proto, msg.payload@, msg.fds@, t0, d0, g_vals,
                                g_pos, g_fd, g_acq, g_reg,
                            );
                        }
                        return Err(
                            DispatchError::ExpectedArgument {
                                data_type: String::from_str(arg.kind.name()),
                            },
                        );
                    },
                }
            },
            DataType::Object => {
                match next_u32(&msg.payload, pos) {
                    None => {
                        proof {
                            lemma_step_fail(
                                args0, i as int, *proto, msg.payload@, msg.fds@, t0, d0, g_vals,
                                g_pos, g_fd, g_acq, g_reg,
                            );
                        }
                        return Err(
                            DispatchError::ExpectedArgument {
                                data_type: String::from_str(arg.kind.name()),
                            },
                        );
                    },
                    Some((id, p)) => {
                        let found_idx = table.find_index(id);
                        let in_acq = contains_u32(&acquired, id);
                        let in_reg = reg_index(&registered, id);
                        let available: bool = match found_idx {
                            Some(idx) => {
                                proof {
                                    lemma_table_find_at(t0, id, idx as int);
                                }
                                !table.entries[idx].leased && !in_acq && !(match in_reg {
                                    Some(_) => true,
                                    None => false,
                                })
                            },
                            None => false,
                        };
                        proof {
                            if in_reg is Some {
                                assert(entry_views(registered@)[in_reg->Some_0 as int].id == id);
                                assert(reg_has(g_reg, id));
                            }
                            assert(available == crate::args::object_available(t0, g_acq, g_reg, id));
                        }
                        match &arg.interface {
                            Some(expected) => {
                                if !available {
                                    proof {
                                        lemma_step_fail(
                                            args0, i as int, *proto, msg.payload@, msg.fds@, t0,
                                            d0, g_vals, g_pos, g_fd, g_acq, g_reg,
                                        );
                                    }
                                    return Err(
                                        DispatchError::InvalidObject {
                                            object: id,
                                            expected: Some(expected.clone()),
                                            found: None,
                                        },
                                    );
                                }
                                let idx = match found_idx {
                                    Some(idx) => idx,
                                    None => {
                                        proof {
                                            assert(false);
                                        }
                                        0
                                    },
                                };
                                if !table.entries[idx].interface.eq(expected) {
                                    proof {
                                        lemma_step_fail(
                                            args0, i as int, *proto, msg.payload@, msg.fds@, t0,
                                            d0, g_vals, g_pos, g_fd, g_acq, g_reg,
                                        );
                                    }
                                    return Err(
                                        DispatchError::InvalidObject {
                                            object: id,
                                            expected: Some(expected.clone()),
                                            found: Some(table.entries[idx].interface.clone()),
                                        },
                                    );
                                }
                                proof {
                                    lemma_step(
                                        args0, i as int, *proto, msg.payload@, msg.fds@, t0, d0,
                                        g_vals, g_pos, g_fd, g_acq, g_reg,
                                        ArgValueView::Object(id), p as int, g_fd, g_acq.push(id),
                                        g_reg,
                                    );
                                }
                                values.push(ArgValue::Object(id));
                                acquired.push(id);
                                pos = p;
                            },
                            None => {
                                if !available {
                                    proof {
                                        lemma_step_fail(
                                            args0, i as int, *proto, msg.payload@, msg.fds@, t0,
                                            d0, g_vals, g_pos, g_fd, g_acq, g_reg,
                                        );
                                    }
                                    return Err(
                                        DispatchError::InvalidObject {
                                            object: id,
                                            expected: None,
                                            found: None,
                                        },
                                    );
                                }
                                proof {
                                    lemma_step(
                                        args0, i as int, *proto, msg.payload@, msg.fds@, t0, d0,
                                        g_vals, g_pos, g_fd, g_acq, g_reg,
                                        ArgValueView::Object(id), p as int, g_fd, g_acq.push(id),
                                        g_reg,
                                    );
                                }
                                values.push(ArgValue::Object(id));
                                acquired.push(id);
                                pos = p;
                            },
                        }
                    },
                }
            },
            DataType::NewId => {
                match &arg.interface {
                    Some(name) => {
                        match next_u32(&msg.payload, pos) {
                            None => {
                                proof {
                                    lemma_step_fail(
                                        args0, i as int, *proto, msg.payload@, msg.fds@, t0, d0,
                                        g_vals, g_pos, g_fd, g_acq, g_reg,
                                    );
                                }
                                return Err(
                                    DispatchError::ExpectedArgument {
                                        data_type: String::from_str(arg.kind.name()),
                                    },
                                );
                            },
                            Some((id, p)) => {
                                let taken_t = table.find_index(id);
                                let taken_r = reg_index(&registered, id);
                                match (taken_t, taken_r) {
                                    (None, None) => {
                                        let version: u32 = match proto.find_interface(name) {
                                            Some(ifc) => ifc.version,
                                            None => {
                                                proof {
                                                    assert(proto.declares_interface(name@));
                                                    assert(false);
                                                }
                                                0
                                            },
                                        };
                                        proof {
                                            assert(proto.spec_find_interface(name@)
                                                ->Some_0.version == version);
                                            lemma_step(
                                                args0, i as int, *proto, msg.payload@, msg.fds@,
                                                t0, d0, g_vals, g_pos, g_fd, g_acq, g_reg,
                                                ArgValueView::NewId(id), p as int, g_fd, g_acq,
                                                g_reg.push(
                                                    RegisteredView {
                                                        id,
                                                        interface: name@,
                                                        version,
                                                    },
                                                ),
                                            );
                                        }
                                        registered.push(
                                            ObjectEntry {
                                                id,
                                                interface: name.clone(),
                                                version,
                                                leased: true,
                                            },
                                        );
                                        values.push(ArgValue::NewId(id));
                                        pos = p;
                                        proof {
                                            assert(entry_views(registered@) =~= g_reg.push(
                                                RegisteredView { id, interface: name@, version },
                                            ));
                                            assert forall|a: int|
                                                0 <= a < g_regvec.len() implies g_regvec[a].id
                                                != id by {
                                                assert(entry_views(g_regvec)[a].id
                                                    == g_regvec[a].id);
                                            }
                                            assert(registered@.len() == g_regvec.len() + 1);
                                            assert(forall|a: int|
                                                0 <= a < g_regvec.len() ==> registered@[a]
                                                    == g_regvec[a]);
                                            assert(registered@[g_regvec.len() as int].id == id);
                                        }
                                    },
                                    _ => {
                                        let found: Option<String> = match taken_t {
                                            Some(idx) => {
                                                proof {
                                                    lemma_table_find_at(t0, id, idx as int);
                                                }
                                                Some(table.entries[idx].interface.clone())
                                            },
                                            None => match taken_r {
                                                Some(k) => {
                                                    proof {
                                                        assert(entry_views(registered@)[k as int].id
                                                            == id);
                                                        lemma_reg_find_at(g_reg, id, k as int);
                                                    }
                                                    Some(registered[k].interface.clone())
                                                },
                                                None => {
                                                    proof {
                                                        assert(false);
                                                    }
                                                    None
                                                },
                                            },
                                        };
                                        proof {
                                            if taken_t is Some {
                                                assert(table_has(t0, id));
                                            } else {
                                                assert(reg_has(g_reg, id));
                                            }
                                            lemma_step_fail(
                                                args0, i as int, *proto, msg.payload@, msg.fds@,
                                                t0, d0, g_vals, g_pos, g_fd, g_acq, g_reg,
                                            );
                                        }
                                        return Err(
                                            DispatchError::InvalidObject {
                                                object: id,
                                                expected: Some(name.clone()),
                                                found,
                                            },
                                        );
                                    },
                                }
                            },
                        }
                    },
                    None => {
                        match next_bytes(&msg.payload, pos) {
                            None => {
                                proof {
                                    lemma_step_fail(
                                        args0, i as int, *proto, msg.payload@, msg.fds@, t0, d0,
                                        g_vals, g_pos, g_fd, g_acq, g_reg,
                                    );
                                }
                                return Err(
                                    DispatchError::ExpectedArgument {
                                        data_type: String::from_str(arg.kind.name()),
                                    },
                                );
                            },
                            Some((nm, p1)) => {
                                match next_u32(&msg.payload, p1) {
                                    None => {
                                        proof {
                                            lemma_step_fail(
                                                args0, i as int, *proto, msg.payload@, msg.fds@,
                                                t0, d0, g_vals, g_pos, g_fd, g_acq, g_reg,
                                            );
                                        }
                                        return Err(
                                            DispatchError::ExpectedArgument {
                                                data_type: String::from_str(arg.kind.name()),
                                            },
                                        );
                                    },
                                    Some((ver, p2)) => {
                                        match next_u32(&msg.payload, p2) {
                                            None => {
                                                proof {
                                                    lemma_step_fail(
                                                        args0, i as int, *proto, msg.payload@,
                                                        msg.fds@, t0, d0, g_vals, g_pos, g_fd,
                                                        g_acq, g_reg,
                                                    );
                                                }
                                                return Err(
                                                    DispatchError::ExpectedArgument {
                                                        data_type: String::from_str(
                                                            arg.kind.name(),
                                                        ),
                                                    },
                                                );
                                            },
                                            Some((id, p3)) => {
                                                proof {
                                                    lemma_step(
                                                        args0, i as int, *proto, msg.payload@,
                                                        msg.fds@, t0, d0, g_vals, g_pos, g_fd,
                                                        g_acq, g_reg,
                                                        ArgValueView::DynNewId(
                                                            crate::args::NewIdView {
                                                                id,
                                                                interface: nm@,
                                                                version: ver,
                                                            },
                                                        ), p3 as int, g_fd, g_acq, g_reg,
                                                    );
                                                }
                                                values.push(
                                                    ArgValue::DynNewId(
                                                        NewId { id, interface: nm, version: ver },
                                                    ),
                                                );
                                                pos = p3;
                                            },
                                        }
                                    },
                                }
                            },
                        }
                    },
                }
            },
        }
        proof {
            assert(arg_views(values@) =~= g_vals.push(arg_views(values@).last()));
        }
        i = i + 1;
    }
    proof {
        assert(args0.skip(args0.len() as int) =~= Seq::<crate::protocol::Arg>::empty());
    }
    let ghost d_acquired = acquired@;
    let ghost d_registered = entry_views(registered@);
    let ghost d_values = arg_views(values@);
    let ghost d_pos = pos as int;
    let ghost d_fd = fd_pos as int;
    proof {
        assert(d0 == DecodeOutcome::Decoded {
            values: d_values,
            pos: d_pos,
            fd_pos: d_fd,
            acquired: d_acquired,
            registered: d_registered,
        });
    }
    // Apply the leases: every id acquired for an object argument goes on
    // loan.
    let mut k: usize = 0;
    while k < acquired.len()
        invariant
            0 <= k <= acquired@.len(),
            acquired@ == d_acquired,
            table.entries@.len() == t0.len(),
            forall|j: int|
                0 <= j < t0.len() ==> {
                    let e = #[trigger] table.entries@[j];
                    &&& e.id == t0[j].id
                    &&& e.interface == t0[j].interface
                    &&& e.version == t0[j].version
                    &&& e.leased == (t0[j].leased || exists|a: int|
                        0 <= a < k && acquired@[a] == t0[j].id)
                },
        decreases acquired@.len() - k,
    {
        let id = acquired[k];
        match table.find_index(id) {
            Some(idx) => {
                let entry = &mut table.entries[idx];
                entry.leased = true;
            },
            None => {},
        }
        k = k + 1;
    }
    // Register the new objects, in registration order, each on loan to the
    // handler.
    let ghost t1 = table.entries@;
    let mut reg_rest: Vec<ObjectEntry> = registered;
    while reg_rest.len() > 0
        invariant
            table.entries@.len() + reg_rest@.len() == t1.len() + d_registered.len(),
            table.entries@.len() >= t1.len(),
            forall|j: int| 0 <= j < t1.len() ==> table.entries@[j] == t1[j],
            forall|m: int|
                t1.len() <= m < table.entries@.len() ==> {
                    let e = #[trigger] table.entries@[m];
                    &&& e.id == d_registered[m - t1.len()].id
                    &&& e.interface@ == d_registered[m - t1.len()].interface
                    &&& e.version == d_registered[m - t1.len()].version
                    &&& e.leased
                },
            forall|a: int| 0 <= a < reg_rest@.len() ==> reg_rest@[a].leased,
            entry_views(reg_rest@) =~= d_registered.skip(table.entries@.len() - t1.len()),
        decreases reg_rest@.len(),
    {
        let ghost pushed = table.entries@.len() - t1.len();
        let ghost old_rest = reg_rest@;
        let e = reg_rest.remove(0);
        proof {
            assert(reg_rest@ =~= old_rest.skip(1));
            assert forall|j: int| 0 <= j < reg_rest@.len() implies entry_views(reg_rest@)[j]
                == entry_views(old_rest)[j + 1] by {
                assert(reg_rest@[j] == old_rest[j + 1]);
            }
            assert(entry_views(reg_rest@) =~= d_registered.skip(pushed + 1));
            assert(e == old_rest[0]);
            assert(entry_views(old_rest)[0] == d_registered.skip(pushed)[0]);
            assert(e.id == d_registered[pushed].id);
            assert(e.interface@ == d_registered[pushed].interface);
            assert(e.version == d_registered[pushed].version);
            assert(e.leased);
        }
        table.entries.push(e);
    }
    proof {
        assert(t1.len() == t0.len());
        assert(table.entries@.len() == t0.len() + d_registered.len());
        assert forall|j: int| 0 <= j < t0.len() implies {
            let e = #[trigger] table.entries@[j];
            &&& e.id == t0[j].id
            &&& e.interface@ == t0[j].interface@
            &&& e.version == t0[j].version
            &&& e.leased == (t0[j].leased || d_acquired.contains(t0[j].id))
        } by {
            assert(table.entries@[j] == t1[j]);
            assert(t1[j].leased == (t0[j].leased || exists|a: int|
                0 <= a < d_acquired.len() && d_acquired[a] == t0[j].id));
        }
        assert forall|m: int| 0 <= m < d_registered.len() implies {
            let e = #[trigger] table.entries@[t0.len() + m];
            &&& e.id == d_registered[m].id
            &&& e.interface@ == d_registered[m].interface
            &&& e.version == d_registered[m].version
            &&& e.leased
        } by {
            assert(t1.len() <= t0.len() + m < table.entries@.len());
        }
        assert(table_after_dispatch(t0, d_acquired, d_registered, table.entries@));
        assert forall|a: int, b: int|
            0 <= a < b < table.entries@.len() implies table.entries@[a].id
            != table.entries@[b].id by {
            if b < t0.len() {
            } else if a < t0.len() {
                assert(!table_has(t0, d_registered[b - t0.len()].id));
                assert(table.entries@[a].id == t0[a].id);
            } else {
            }
        }
    }
    Ok(DispatchCall { request_index: msg.opcode as usize, args: values, acquired })
}

/// Return every lease the dispatch acquired for object arguments: their
/// entries are available again, everything else is untouched. Call it once
/// the handler has returned, on success and on failure alike.
#[verifier::loop_isolation(false)]
pub fn release_leases(table: &mut ObjectTable, call: &DispatchCall)
    requires
        old(table).wf(),
    ensures
        final(table).wf(),
        final(table).entries@.len() == old(table).entries@.len(),
        forall|j: int|
            0 <= j < old(table).entries@.len() ==> {
                let e = #[trigger] final(table).entries@[j];
                &&& e.id == old(table).entries@[j].id
                &&& e.interface == old(table).entries@[j].interface
                &&& e.version == old(table).entries@[j].version
                &&& e.leased == (old(table).entries@[j].leased && !call.acquired@.contains(
                    old(table).entries@[j].id,
                ))
            },
{
    let ghost t0 = old(table).entries@;
    let mut k: usize = 0;
    while k < call.acquired.len()
        invariant
            0 <= k <= call.acquired@.len(),
            table.entries@.len() == t0.len(),
            forall|j: int|
                0 <= j < t0.len() ==> {
                    let e = #[trigger] table.entries@[j];
                    &&& e.id == t0[j].id
                    &&& e.interface == t0[j].interface
                    &&& e.version == t0[j].version
                    &&& e.leased == (t0[j].leased && !(exists|a: int|
                        0 <= a < k && call.acquired@[a] == t0[j].id))
                },
        decreases call.acquired@.len() - k,
    {
        let id = call.acquired[k];
        match table.find_index(id) {
            Some(idx) => {
                let entry = &mut table.entries[idx];
                entry.leased = false;
            },
            None => {},
        }
        k = k + 1;
    }
}

} // verus!
