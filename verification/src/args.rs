//! Argument values and the argument codec rules: the total mapping from an
//! argument's wire type (and its static-or-dynamic reference classification)
//! to its decode rule, its encode rule and its exposed shape.
//!
//! Decoding proceeds strictly in declared argument order; the first failure
//! short-circuits. `Object` arguments acquire an exclusive lease at decode
//! time; a statically typed one is also checked against its declared
//! interface. A static `NewId` registers a fresh object of the known
//! interface at its declared version; a dynamic one carries the interface
//! name, version and id read from the stream and leaves registration to the
//! embedder, which must first resolve the name. An object already on
//! exclusive loan, or an id already taken by a registration, is unavailable:
//! a lookup of it fails as if the object were absent.

use vstd::prelude::*;

use crate::codec::{
    Message, push_bytes, push_fd, push_i32, push_u32, spec_encode_bytes, spec_encode_i32,
    spec_encode_u32, spec_read_bytes, spec_read_i32, spec_read_u32, lemma_read_encode_bytes,
    lemma_read_encode_i32, lemma_read_encode_u32,
};
use vstd::bytes::lemma_auto_spec_u32_to_from_le_bytes;
use crate::objects::{ObjectEntry, table_find, table_has};
use crate::protocol::{Arg, DataType, Event, Protocol};

verus! {

/// A token introducing a new object whose interface the client names at
/// runtime: the interface name and version read from the stream, and the id
/// the new object will carry.
#[derive(Clone, Debug)]
pub struct NewId {
    pub id: u32,
    pub interface: Vec<u8>,
    pub version: u32,
}

/// Mathematical shape of a `NewId`.
pub struct NewIdView {
    pub id: u32,
    pub interface: Seq<u8>,
    pub version: u32,
}

impl View for NewId {
    type V = NewIdView;

    open spec fn view(&self) -> NewIdView {
        NewIdView { id: self.id, interface: self.interface@, version: self.version }
    }
}

/// One decoded (or to-be-encoded) argument value, one variant per exposed
/// parameter shape. `Object` carries the id of the leased object; `NewId`
/// carries the id of a statically typed new object (its interface and
/// version are compile-time known, not transmitted); strings travel as raw
/// bytes at the codec boundary.
#[derive(Clone, Debug)]
pub enum ArgValue {
    Int(i32),
    Uint(u32),
    Fixed(i32),
    Str(Vec<u8>),
    Array(Vec<u8>),
    Fd(i32),
    Object(u32),
    NewId(u32),
    DynNewId(NewId),
}

/// Mathematical shape of an `ArgValue`.
pub enum ArgValueView {
    Int(i32),
    Uint(u32),
    Fixed(i32),
    Str(Seq<u8>),
    Array(Seq<u8>),
    Fd(i32),
    Object(u32),
    NewId(u32),
    DynNewId(NewIdView),
}

impl View for ArgValue {
    type V = ArgValueView;

    open spec fn view(&self) -> ArgValueView {
        match self {
            ArgValue::Int(x) => ArgValueView::Int(*x),
            ArgValue::Uint(x) => ArgValueView::Uint(*x),
            ArgValue::Fixed(x) => ArgValueView::Fixed(*x),
            ArgValue::Str(b) => ArgValueView::Str(b@),
            ArgValue::Array(b) => ArgValueView::Array(b@),
            ArgValue::Fd(fd) => ArgValueView::Fd(*fd),
            ArgValue::Object(id) => ArgValueView::Object(*id),
            ArgValue::NewId(id) => ArgValueView::NewId(*id),
            ArgValue::DynNewId(n) => ArgValueView::DynNewId(n@),
        }
    }
}

/// The views of a sequence of argument values.
pub open spec fn arg_views(s: Seq<ArgValue>) -> Seq<ArgValueView> {
    s.map_values(|v: ArgValue| v@)
}

/// Whether `v` has the exposed shape that `arg` demands, and is
/// representable on the wire (length-prefixed blocks fit a 32-bit length).
pub open spec fn arg_matches(arg: Arg, v: ArgValueView) -> bool {
    match v {
        ArgValueView::Int(_) => arg.kind is Int,
        ArgValueView::Uint(_) => arg.kind is Uint,
        ArgValueView::Fixed(_) => arg.kind is Fixed,
        ArgValueView::Str(b) => arg.kind is String && b.len() <= u32::MAX,
        ArgValueView::Array(b) => arg.kind is Array && b.len() <= u32::MAX,
        ArgValueView::Fd(_) => arg.kind is Fd,
        ArgValueView::Object(_) => arg.kind is Object,
        ArgValueView::NewId(_) => arg.kind is NewId && arg.interface is Some,
        ArgValueView::DynNewId(n) => arg.kind is NewId && arg.interface is None
            && n.interface.len() <= u32::MAX,
    }
}

/// Whether `vs` fits the declared argument list `args`, position by
/// position.
pub open spec fn args_match(args: Seq<Arg>, vs: Seq<ArgValueView>) -> bool {
    &&& args.len() == vs.len()
    &&& forall|i: int| 0 <= i < args.len() ==> arg_matches(args[i], #[trigger] vs[i])
}

/// The in-stream wire bytes of one argument value. File descriptors consume
/// no bytes: they travel out of band.
pub open spec fn spec_encode_value(v: ArgValueView) -> Seq<u8> {
    match v {
        ArgValueView::Int(x) => spec_encode_i32(x),
        ArgValueView::Uint(x) => spec_encode_u32(x),
        ArgValueView::Fixed(x) => spec_encode_i32(x),
        ArgValueView::Str(b) => spec_encode_bytes(b),
        ArgValueView::Array(b) => spec_encode_bytes(b),
        ArgValueView::Fd(_) => Seq::<u8>::empty(),
        ArgValueView::Object(id) => spec_encode_u32(id),
        ArgValueView::NewId(id) => spec_encode_u32(id),
        ArgValueView::DynNewId(n) => spec_encode_bytes(n.interface) + spec_encode_u32(n.version)
            + spec_encode_u32(n.id),
    }
}

/// The out-of-band descriptors of one argument value.
pub open spec fn spec_encode_value_fds(v: ArgValueView) -> Seq<i32> {
    match v {
        ArgValueView::Fd(fd) => seq![fd],
        _ => Seq::<i32>::empty(),
    }
}

/// The in-stream wire bytes of an argument list, in declared order.
pub open spec fn spec_encode_values(vs: Seq<ArgValueView>) -> Seq<u8>
    decreases vs.len(),
{
    if vs.len() == 0 {
        Seq::<u8>::empty()
    } else {
        spec_encode_value(vs[0]) + spec_encode_values(vs.drop_first())
    }
}

/// The out-of-band descriptors of an argument list, in declared order.
pub open spec fn spec_encode_values_fds(vs: Seq<ArgValueView>) -> Seq<i32>
    decreases vs.len(),
{
    if vs.len() == 0 {
        Seq::<i32>::empty()
    } else {
        spec_encode_value_fds(vs[0]) + spec_encode_values_fds(vs.drop_first())
    }
}

/// Appending one value to a list appends its encoding to the stream.
pub proof fn lemma_encode_values_snoc(vs: Seq<ArgValueView>, v: ArgValueView)
    ensures
        spec_encode_values(vs.push(v)) == spec_encode_values(vs) + spec_encode_value(v),
        spec_encode_values_fds(vs.push(v)) == spec_encode_values_fds(vs) + spec_encode_value_fds(
            v,
        ),
    decreases vs.len(),
{
    if vs.len() == 0 {
        assert(vs.push(v).drop_first() =~= Seq::<ArgValueView>::empty());
        assert(vs.push(v)[0] == v);
        assert(spec_encode_values(Seq::<ArgValueView>::empty()) == Seq::<u8>::empty());
        assert(spec_encode_values_fds(Seq::<ArgValueView>::empty()) == Seq::<i32>::empty());
        assert(spec_encode_values(vs.push(v)) =~= spec_encode_values(vs) + spec_encode_value(v));
        assert(spec_encode_values_fds(vs.push(v)) =~= spec_encode_values_fds(vs)
            + spec_encode_value_fds(v));
    } else {
        assert(vs.push(v).drop_first() =~= vs.drop_first().push(v));
        assert(vs.push(v)[0] == vs[0]);
        lemma_encode_values_snoc(vs.drop_first(), v);
        assert(spec_encode_values(vs.push(v)) =~= spec_encode_values(vs) + spec_encode_value(v));
        assert(spec_encode_values_fds(vs.push(v)) =~= spec_encode_values_fds(vs)
            + spec_encode_value_fds(v));
    }
}

/// Append the wire form of one argument value to a message under
/// construction: its bytes to the stream, its descriptor (if any) to the
/// side channel.
pub fn push_value(msg: &mut Message, v: &ArgValue)
    requires
        match v {
            ArgValue::Str(b) => b@.len() <= u32::MAX,
            ArgValue::Array(b) => b@.len() <= u32::MAX,
            ArgValue::DynNewId(n) => n.interface@.len() <= u32::MAX,
            _ => true,
        },
    ensures
        final(msg).object == old(msg).object,
        final(msg).opcode == old(msg).opcode,
        final(msg).payload@ == old(msg).payload@ + spec_encode_value(v@),
        final(msg).fds@ == old(msg).fds@ + spec_encode_value_fds(v@),
{
    match v {
        ArgValue::Int(x) => push_i32(&mut msg.payload, *x),
        ArgValue::Uint(x) => push_u32(&mut msg.payload, *x),
        ArgValue::Fixed(x) => push_i32(&mut msg.payload, *x),
        ArgValue::Str(b) => push_bytes(&mut msg.payload, b),
        ArgValue::Array(b) => push_bytes(&mut msg.payload, b),
        ArgValue::Fd(fd) => push_fd(&mut msg.fds, *fd),
        ArgValue::Object(id) => push_u32(&mut msg.payload, *id),
        ArgValue::NewId(id) => push_u32(&mut msg.payload, *id),
        ArgValue::DynNewId(n) => {
            push_bytes(&mut msg.payload, &n.interface);
            push_u32(&mut msg.payload, n.version);
            push_u32(&mut msg.payload, n.id);
        },
    }
    proof {
        assert(final(msg).payload@ =~= old(msg).payload@ + spec_encode_value(v@));
        assert(final(msg).fds@ =~= old(msg).fds@ + spec_encode_value_fds(v@));
    }
}

/// Build the one outbound message of an event invocation: it is addressed
/// to the emitting object, tagged with the event's declaration-order
/// opcode, and carries the arguments' wire encoding in declared order (the
/// descriptors in the out-of-band channel, also in declared order).
pub fn encode_event(event: &Event, object: u32, opcode: u16, values: &Vec<ArgValue>) -> (r:
    Message)
    requires
        args_match(event.args@, arg_views(values@)),
    ensures
        r.object == object,
        r.opcode == opcode,
        r.payload@ == spec_encode_values(arg_views(values@)),
        r.fds@ == spec_encode_values_fds(arg_views(values@)),
{
    let mut msg = Message::new(object, opcode);
    let mut i: usize = 0;
    proof {
        assert(arg_views(values@).take(0) =~= Seq::<ArgValueView>::empty());
    }
    while i < values.len()
        invariant
            0 <= i <= values@.len(),
            args_match(event.args@, arg_views(values@)),
            msg.object == object,
            msg.opcode == opcode,
            msg.payload@ == spec_encode_values(arg_views(values@).take(i as int)),
            msg.fds@ == spec_encode_values_fds(arg_views(values@).take(i as int)),
        decreases values@.len() - i,
    {
        proof {
            assert(arg_views(values@)[i as int] == values@[i as int]@);
            assert(arg_matches(event.args@[i as int], arg_views(values@)[i as int]));
        }
        push_value(&mut msg, &values[i]);
        proof {
            lemma_encode_values_snoc(arg_views(values@).take(i as int), values@[i as int]@);
            assert(arg_views(values@).take(i as int + 1) =~= arg_views(values@).take(
                i as int,
            ).push(values@[i as int]@));
        }
        i = i + 1;
    }
    proof {
        assert(arg_views(values@).take(values@.len() as int) =~= arg_views(values@));
    }
    msg
}

/// An object registered while decoding one message: the id read from the
/// stream, and the interface and declared version it was created with.
pub struct RegisteredView {
    pub id: u32,
    pub interface: Seq<char>,
    pub version: u32,
}

/// The registration views of a list of table entries.
pub open spec fn entry_views(s: Seq<ObjectEntry>) -> Seq<RegisteredView> {
    s.map_values(
        |e: ObjectEntry| RegisteredView { id: e.id, interface: e.interface@, version: e.version },
    )
}

/// Whether one of this message's registrations took the given id.
pub open spec fn reg_has(regs: Seq<RegisteredView>, id: u32) -> bool {
    exists|i: int| 0 <= i < regs.len() && regs[i].id == id
}

/// A registration of this message holding the given id, if any.
pub open spec fn reg_find(regs: Seq<RegisteredView>, id: u32) -> Option<RegisteredView> {
    if exists|i: int| 0 <= i < regs.len() && regs[i].id == id {
        Some(regs[choose|i: int| 0 <= i < regs.len() && regs[i].id == id])
    } else {
        None
    }
}

/// With distinct registration ids, finding by id lands on the one
/// registration that holds it.
pub proof fn lemma_reg_find_at(regs: Seq<RegisteredView>, id: u32, k: int)
    requires
        forall|a: int, b: int| 0 <= a < b < regs.len() ==> regs[a].id != regs[b].id,
        0 <= k < regs.len(),
        regs[k].id == id,
    ensures
        reg_find(regs, id) == Some(regs[k]),
{
    assert(reg_has(regs, id));
    let a = choose|a: int| 0 <= a < regs.len() && regs[a].id == id;
    if a < k {
        assert(regs[a].id != regs[k].id);
    }
    if k < a {
        assert(regs[k].id != regs[a].id);
    }
}

/// Whether the object with the given id can be leased now: it is live, not
/// already on loan, not leased earlier in this message, and not an id just
/// taken by a registration of this message.
pub open spec fn object_available(
    table: Seq<ObjectEntry>,
    acquired: Seq<u32>,
    registered: Seq<RegisteredView>,
    id: u32,
) -> bool {
    &&& match table_find(table, id) {
        Some(e) => !e.leased,
        None => false,
    }
    &&& !acquired.contains(id)
    &&& !reg_has(registered, id)
}

/// The interface of whatever holds the given id, live object or fresh
/// registration, if anything does.
pub open spec fn holder_interface(
    table: Seq<ObjectEntry>,
    registered: Seq<RegisteredView>,
    id: u32,
) -> Option<Seq<char>> {
    match table_find(table, id) {
        Some(e) => Some(e.interface@),
        None => match reg_find(registered, id) {
            Some(r) => Some(r.interface),
            None => None,
        },
    }
}

/// Outcome of decoding an argument list against a message and the current
/// object table. `Decoded` carries the decoded values in declared order, the
/// next stream and descriptor positions, the ids leased for object
/// arguments (in order), and the objects registered for static new-id
/// arguments (in order). `Underflow` names the wire type of the first
/// argument the stream was too short for. `BadObject` reports the first
/// object reference that could not be honoured.
pub enum DecodeOutcome {
    Decoded {
        values: Seq<ArgValueView>,
        pos: int,
        fd_pos: int,
        acquired: Seq<u32>,
        registered: Seq<RegisteredView>,
    },
    Underflow { data_type: Seq<char> },
    BadObject { object: u32, expected: Option<Seq<char>>, found: Option<Seq<char>> },
}

/// A one-value success.
pub open spec fn decode_ok_one(
    v: ArgValueView,
    pos: int,
    fd_pos: int,
    acquired: Seq<u32>,
    registered: Seq<RegisteredView>,
) -> DecodeOutcome {
    DecodeOutcome::Decoded { values: seq![v], pos, fd_pos, acquired, registered }
}

/// Decode rule for a single argument, per its wire type and its
/// static-or-dynamic reference classification.
pub open spec fn spec_decode_arg(
    arg: Arg,
    proto: Protocol,
    payload: Seq<u8>,
    pos: int,
    fds: Seq<i32>,
    fd_pos: int,
    table: Seq<ObjectEntry>,
    acquired: Seq<u32>,
    registered: Seq<RegisteredView>,
) -> DecodeOutcome {
    match arg.kind {
        DataType::Int => match spec_read_i32(payload, pos) {
            Some((x, p)) => decode_ok_one(ArgValueView::Int(x), p, fd_pos, acquired, registered),
            None => DecodeOutcome::Underflow { data_type: arg.kind.spec_name() },
        },
        DataType::Uint => match spec_read_u32(payload, pos) {
            Some((x, p)) => decode_ok_one(ArgValueView::Uint(x), p, fd_pos, acquired, registered),
            None => DecodeOutcome::Underflow { data_type: arg.kind.spec_name() },
        },
        DataType::Fixed => match spec_read_i32(payload, pos) {
            Some((x, p)) => decode_ok_one(ArgValueView::Fixed(x), p, fd_pos, acquired, registered),
            None => DecodeOutcome::Underflow { data_type: arg.kind.spec_name() },
        },
        DataType::String => match spec_read_bytes(payload, pos) {
            Some((b, p)) => decode_ok_one(ArgValueView::Str(b), p, fd_pos, acquired, registered),
            None => DecodeOutcome::Underflow { data_type: arg.kind.spec_name() },
        },
        DataType::Array => match spec_read_bytes(payload, pos) {
            Some((b, p)) => decode_ok_one(ArgValueView::Array(b), p, fd_pos, acquired, registered),
            None => DecodeOutcome::Underflow { data_type: arg.kind.spec_name() },
        },
        DataType::Fd => if fd_pos < fds.len() {
            decode_ok_one(ArgValueView::Fd(fds[fd_pos]), pos, fd_pos + 1, acquired, registered)
        } else {
            DecodeOutcome::Underflow { data_type: arg.kind.spec_name() }
        },
        DataType::Object => match spec_read_u32(payload, pos) {
            None => DecodeOutcome::Underflow { data_type: arg.kind.spec_name() },
            Some((id, p)) => match arg.interface {
                Some(expected) => if !object_available(table, acquired, registered, id) {
                    DecodeOutcome::BadObject { object: id, expected: Some(expected@), found: None }
                } else if table_find(table, id)->Some_0.interface@ != expected@ {
                    DecodeOutcome::BadObject {
                        object: id,
                        expected: Some(expected@),
                        found: Some(table_find(table, id)->Some_0.interface@),
                    }
                } else {
                    decode_ok_one(
                        ArgValueView::Object(id),
                        p,
                        fd_pos,
                        acquired.push(id),
                        registered,
                    )
                },
                None => if object_available(table, acquired, registered, id) {
                    decode_ok_one(
                        ArgValueView::Object(id),
                        p,
                        fd_pos,
                        acquired.push(id),
                        registered,
                    )
                } else {
                    DecodeOutcome::BadObject { object: id, expected: None, found: None }
                },
            },
        },
        DataType::NewId => match arg.interface {
            Some(name) => match spec_read_u32(payload, pos) {
                None => DecodeOutcome::Underflow { data_type: arg.kind.spec_name() },
                Some((id, p)) => if !table_has(table, id) && !reg_has(registered, id) {
                    decode_ok_one(
                        ArgValueView::NewId(id),
                        p,
                        fd_pos,
                        acquired,
                        registered.push(
                            RegisteredView {
                                id,
                                interface: name@,
                                version: proto.spec_find_interface(name@)->Some_0.version,
                            },
                        ),
                    )
                } else {
                    DecodeOutcome::BadObject {
                        object: id,
                        expected: Some(name@),
                        found: holder_interface(table, registered, id),
                    }
                },
            },
            None => match spec_read_bytes(payload, pos) {
                None => DecodeOutcome::Underflow { data_type: arg.kind.spec_name() },
                Some((nm, p1)) => match spec_read_u32(payload, p1) {
                    None => DecodeOutcome::Underflow { data_type: arg.kind.spec_name() },
                    Some((ver, p2)) => match spec_read_u32(payload, p2) {
                        None => DecodeOutcome::Underflow { data_type: arg.kind.spec_name() },
                        Some((id, p3)) => decode_ok_one(
                            ArgValueView::DynNewId(NewIdView { id, interface: nm, version: ver }),
                            p3,
                            fd_pos,
                            acquired,
                            registered,
                        ),
                    },
                },
            },
        },
    }
}

/// Prefix the values of a success with earlier-decoded values; a failure
/// passes through unchanged.
pub open spec fn outcome_prepend(o: DecodeOutcome, vs: Seq<ArgValueView>) -> DecodeOutcome {
    match o {
        DecodeOutcome::Decoded { values, pos, fd_pos, acquired, registered } => DecodeOutcome::Decoded {
            values: vs + values,
            pos,
            fd_pos,
            acquired,
            registered,
        },
        other => other,
    }
}

/// Decode rule for an argument list, strictly in declared order: the first
/// failure short-circuits, and each argument sees the leases and
/// registrations of the ones before it.
pub open spec fn spec_decode_args(
    args: Seq<Arg>,
    proto: Protocol,
    payload: Seq<u8>,
    pos: int,
    fds: Seq<i32>,
    fd_pos: int,
    table: Seq<ObjectEntry>,
    acquired: Seq<u32>,
    registered: Seq<RegisteredView>,
) -> DecodeOutcome
    decreases args.len(),
{
    if args.len() == 0 {
        DecodeOutcome::Decoded { values: Seq::empty(), pos, fd_pos, acquired, registered }
    } else {
        match spec_decode_arg(args[0], proto, payload, pos, fds, fd_pos, table, acquired, registered) {
            DecodeOutcome::Decoded { values: v1, pos: p1, fd_pos: f1, acquired: a1, registered: r1 } =>
                outcome_prepend(
                spec_decode_args(args.drop_first(), proto, payload, p1, fds, f1, table, a1, r1),
                v1,
            ),
            fail => fail,
        }
    }
}

/// Prefixing nothing changes nothing.
pub proof fn lemma_outcome_prepend_empty(o: DecodeOutcome)
    ensures
        outcome_prepend(o, Seq::<ArgValueView>::empty()) == o,
{
    match o {
        DecodeOutcome::Decoded { values, pos, fd_pos, acquired, registered } => {
            assert(Seq::<ArgValueView>::empty() + values =~= values);
        },
        _ => {},
    }
}

/// Prefixing twice is prefixing the concatenation.
pub proof fn lemma_outcome_prepend_compose(
    o: DecodeOutcome,
    vs1: Seq<ArgValueView>,
    vs2: Seq<ArgValueView>,
)
    ensures
        outcome_prepend(outcome_prepend(o, vs2), vs1) == outcome_prepend(o, vs1 + vs2),
{
    match o {
        DecodeOutcome::Decoded { values, pos, fd_pos, acquired, registered } => {
            assert(vs1 + (vs2 + values) =~= (vs1 + vs2) + values);
        },
        _ => {},
    }
}

/// Whether every argument is a plain value type: no object reference, no
/// new id, no out-of-band descriptor.
pub open spec fn primitive_args(args: Seq<Arg>) -> bool {
    forall|i: int|
        0 <= i < args.len() ==> match (#[trigger] args[i]).kind {
            DataType::Int => true,
            DataType::Uint => true,
            DataType::Fixed => true,
            DataType::String => true,
            DataType::Array => true,
            _ => false,
        }
}

/// Round trip: encoding a list of plain values and then decoding it with a
/// matching declared argument list yields the original values, wherever the
/// encoding stands in the stream and whatever the object table holds.
pub proof fn lemma_decode_encode_values(
    args: Seq<Arg>,
    vs: Seq<ArgValueView>,
    proto: Protocol,
    prefix: Seq<u8>,
    suffix: Seq<u8>,
    fds: Seq<i32>,
    fd_pos: int,
    table: Seq<ObjectEntry>,
    acquired: Seq<u32>,
    registered: Seq<RegisteredView>,
)
    requires
        args_match(args, vs),
        primitive_args(args),
    ensures
        (spec_decode_args(
            args,
            proto,
            prefix + spec_encode_values(vs) + suffix,
            prefix.len() as int,
            fds,
            fd_pos,
            table,
            acquired,
            registered,
        ) == DecodeOutcome::Decoded {
            values: vs,
            pos: prefix.len() as int + spec_encode_values(vs).len(),
            fd_pos,
            acquired,
            registered,
        }),
    decreases args.len(),
{
    let whole = prefix + spec_encode_values(vs) + suffix;
    if args.len() == 0 {
        assert(vs =~= Seq::<ArgValueView>::empty());
        assert(spec_encode_values(vs).len() == 0);
    } else {
        let v0 = vs[0];
        let enc0 = spec_encode_value(v0);
        let rest = vs.drop_first();
        let enc_rest = spec_encode_values(rest);
        let prefix2 = prefix + enc0;
        lemma_auto_spec_u32_to_from_le_bytes();
        assert(whole =~= prefix2 + enc_rest + suffix);
        assert(arg_matches(args[0], v0));
        match v0 {
            ArgValueView::Int(x) => {
                lemma_read_encode_i32(prefix, x, enc_rest + suffix);
                assert(whole =~= prefix + spec_encode_i32(x) + (enc_rest + suffix));
            },
            ArgValueView::Uint(x) => {
                lemma_read_encode_u32(prefix, x, enc_rest + suffix);
                assert(whole =~= prefix + spec_encode_u32(x) + (enc_rest + suffix));
            },
            ArgValueView::Fixed(x) => {
                lemma_read_encode_i32(prefix, x, enc_rest + suffix);
                assert(whole =~= prefix + spec_encode_i32(x) + (enc_rest + suffix));
            },
            ArgValueView::Str(b) => {
                lemma_read_encode_bytes(prefix, b, enc_rest + suffix);
                assert(whole =~= prefix + spec_encode_bytes(b) + (enc_rest + suffix));
            },
            ArgValueView::Array(b) => {
                lemma_read_encode_bytes(prefix, b, enc_rest + suffix);
                assert(whole =~= prefix + spec_encode_bytes(b) + (enc_rest + suffix));
            },
            _ => {
                assert(false);
            },
        }
        assert(spec_decode_arg(
            args[0],
            proto,
            whole,
            prefix.len() as int,
            fds,
            fd_pos,
            table,
            acquired,
            registered,
        ) == decode_ok_one(
            v0,
            prefix.len() as int + enc0.len(),
            fd_pos,
            acquired,
            registered,
        ));
        lemma_decode_encode_values(
            args.drop_first(),
            rest,
            proto,
            prefix2,
            suffix,
            fds,
            fd_pos,
            table,
            acquired,
            registered,
        );
        assert(seq![v0] + rest =~= vs);
        assert(spec_encode_values(vs).len() == enc0.len() + enc_rest.len());
    }
}

} // verus!
