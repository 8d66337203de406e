//! Dispatch state-machine tests: opcode selection, in-order argument
//! decoding, short-circuit failures, lease acquisition and release, and
//! event emission.

use wl_protocol::args::{encode_event, ArgValue};
use wl_protocol::codec::{push_bytes, push_u32, Message};
use wl_protocol::dispatch::{dispatch, release_leases};
use wl_protocol::error::DispatchError;
use wl_protocol::objects::ObjectTable;
use wl_protocol::protocol::{Arg, DataType, Event, Interface, Protocol, Request};

fn arg(name: &str, kind: DataType, interface: Option<&str>) -> Arg {
    Arg {
        name: name.to_string(),
        kind,
        interface: interface.map(|s| s.to_string()),
        enumeration: None,
        summary: None,
    }
}

fn request(name: &str, args: Vec<Arg>) -> Request {
    Request {
        name: name.to_string(),
        since: None,
        destructor: false,
        summary: None,
        description: None,
        args,
    }
}

fn event(name: &str, args: Vec<Arg>) -> Event {
    Event { name: name.to_string(), since: None, summary: None, description: None, args }
}

fn interface(name: &str, version: u32, requests: Vec<Request>, events: Vec<Event>) -> Interface {
    Interface {
        name: name.to_string(),
        summary: None,
        description: None,
        version,
        enums: Vec::new(),
        requests,
        events,
    }
}

fn protocol(interfaces: Vec<Interface>) -> Protocol {
    Protocol {
        name: "test_protocol".to_string(),
        summary: None,
        description: None,
        copyright: None,
        interfaces,
    }
}

/// The `widget` interface of the concrete scenario: request
/// `resize(width: Uint, height: Uint)` at opcode 0 and event
/// `resized(width: Uint, height: Uint)` at opcode 0.
fn widget() -> Interface {
    interface(
        "widget",
        2,
        vec![request(
            "resize",
            vec![arg("width", DataType::Uint, None), arg("height", DataType::Uint, None)],
        )],
        vec![event(
            "resized",
            vec![arg("width", DataType::Uint, None), arg("height", DataType::Uint, None)],
        )],
    )
}

#[test]
fn widget_resize_dispatches_decoded_arguments() {
    let proto = protocol(vec![widget()]);
    let widget = &proto.interfaces[0];
    let mut table = ObjectTable::new();
    let mut msg = Message::new(5, 0);
    push_u32(&mut msg.payload, 100);
    push_u32(&mut msg.payload, 200);
    let call = dispatch(&proto, widget, &mut table, &msg).unwrap();
    assert_eq!(call.request_index, 0);
    assert_eq!(call.args.len(), 2);
    assert!(matches!(call.args[0], ArgValue::Uint(100)));
    assert!(matches!(call.args[1], ArgValue::Uint(200)));
    assert!(call.acquired.is_empty());
}

#[test]
fn widget_resized_emits_one_message() {
    let proto = protocol(vec![widget()]);
    let resized = &proto.interfaces[0].events[0];
    let values = vec![ArgValue::Uint(150), ArgValue::Uint(250)];
    let msg = encode_event(resized, 5, 0, &values);
    assert_eq!(msg.object, 5);
    assert_eq!(msg.opcode, 0);
    let mut expected: Vec<u8> = Vec::new();
    push_u32(&mut expected, 150);
    push_u32(&mut expected, 250);
    assert_eq!(msg.payload, expected);
    assert!(msg.fds.is_empty());
}

#[test]
fn unknown_opcode_is_refused_with_context() {
    let proto = protocol(vec![widget()]);
    let widget = &proto.interfaces[0];
    let mut table = ObjectTable::new();
    let msg = Message::new(5, 7);
    match dispatch(&proto, widget, &mut table, &msg) {
        Err(DispatchError::InvalidOpcode { object, opcode, interface }) => {
            assert_eq!(object, 5);
            assert_eq!(opcode, 7);
            assert_eq!(interface, "widget");
        },
        other => panic!("expected InvalidOpcode, got {:?}", other),
    }
}

#[test]
fn truncated_stream_names_first_unreadable_type() {
    let proto = protocol(vec![widget()]);
    let widget = &proto.interfaces[0];
    let mut table = ObjectTable::new();
    let mut msg = Message::new(5, 0);
    push_u32(&mut msg.payload, 100);
    // Only one of the two declared uints is present.
    match dispatch(&proto, widget, &mut table, &msg) {
        Err(DispatchError::ExpectedArgument { data_type }) => {
            assert_eq!(data_type, "uint");
        },
        other => panic!("expected ExpectedArgument, got {:?}", other),
    }
}

#[test]
fn decode_runs_in_declared_order_and_covers_each_type() {
    let iface = interface(
        "mixed",
        1,
        vec![request(
            "all",
            vec![
                arg("a", DataType::Int, None),
                arg("b", DataType::Uint, None),
                arg("c", DataType::Fixed, None),
                arg("d", DataType::String, None),
                arg("e", DataType::Array, None),
                arg("f", DataType::Fd, None),
            ],
        )],
        Vec::new(),
    );
    let proto = protocol(vec![iface]);
    let iface = &proto.interfaces[0];
    let mut table = ObjectTable::new();
    let mut msg = Message::new(1, 0);
    push_u32(&mut msg.payload, (-7i32) as u32);
    push_u32(&mut msg.payload, 8);
    push_u32(&mut msg.payload, 0x0000_0180); // 1.5 in 24.8 fixed point
    push_bytes(&mut msg.payload, &b"hi".to_vec());
    push_bytes(&mut msg.payload, &vec![9, 9, 9]);
    msg.fds.push(33);
    let call = dispatch(&proto, iface, &mut table, &msg).unwrap();
    assert!(matches!(call.args[0], ArgValue::Int(-7)));
    assert!(matches!(call.args[1], ArgValue::Uint(8)));
    assert!(matches!(call.args[2], ArgValue::Fixed(0x0180)));
    match &call.args[3] {
        ArgValue::Str(b) => assert_eq!(b, b"hi"),
        other => panic!("expected Str, got {:?}", other),
    }
    match &call.args[4] {
        ArgValue::Array(b) => assert_eq!(b, &vec![9, 9, 9]),
        other => panic!("expected Array, got {:?}", other),
    }
    assert!(matches!(call.args[5], ArgValue::Fd(33)));
}

#[test]
fn missing_descriptor_is_an_expected_argument_failure() {
    let iface = interface(
        "sink",
        1,
        vec![request("attach", vec![arg("fd", DataType::Fd, None)])],
        Vec::new(),
    );
    let proto = protocol(vec![iface]);
    let iface = &proto.interfaces[0];
    let mut table = ObjectTable::new();
    let msg = Message::new(1, 0);
    match dispatch(&proto, iface, &mut table, &msg) {
        Err(DispatchError::ExpectedArgument { data_type }) => assert_eq!(data_type, "fd"),
        other => panic!("expected ExpectedArgument, got {:?}", other),
    }
}

#[test]
fn typed_object_argument_takes_a_lease_and_releases_it() {
    let iface = interface(
        "compositor",
        1,
        vec![request("raise", vec![arg("target", DataType::Object, Some("surface"))])],
        Vec::new(),
    );
    let proto = protocol(vec![iface]);
    let iface = &proto.interfaces[0];
    let mut table = ObjectTable::new();
    assert!(table.register(7, "surface".to_string(), 1));
    let mut msg = Message::new(1, 0);
    push_u32(&mut msg.payload, 7);
    let call = dispatch(&proto, iface, &mut table, &msg).unwrap();
    assert!(matches!(call.args[0], ArgValue::Object(7)));
    assert_eq!(call.acquired, vec![7]);
    assert!(table.entries[0].leased);
    release_leases(&mut table, &call);
    assert!(!table.entries[0].leased);
}

#[test]
fn wrong_interface_object_is_invalid() {
    // Concrete scenario: an Object argument referencing `surface`,
    // dispatched against a live object of a different interface.
    let iface = interface(
        "compositor",
        1,
        vec![request("raise", vec![arg("target", DataType::Object, Some("surface"))])],
        Vec::new(),
    );
    let proto = protocol(vec![iface]);
    let iface = &proto.interfaces[0];
    let mut table = ObjectTable::new();
    assert!(table.register(7, "wl_output".to_string(), 1));
    let mut msg = Message::new(1, 0);
    push_u32(&mut msg.payload, 7);
    match dispatch(&proto, iface, &mut table, &msg) {
        Err(DispatchError::InvalidObject { object, expected, found }) => {
            assert_eq!(object, 7);
            assert_eq!(expected.as_deref(), Some("surface"));
            assert_eq!(found.as_deref(), Some("wl_output"));
        },
        other => panic!("expected InvalidObject, got {:?}", other),
    }
    // The failed dispatch left no lease behind.
    assert!(!table.entries[0].leased);
}

#[test]
fn absent_object_is_invalid_with_nothing_found() {
    let iface = interface(
        "compositor",
        1,
        vec![request("raise", vec![arg("target", DataType::Object, Some("surface"))])],
        Vec::new(),
    );
    let proto = protocol(vec![iface]);
    let iface = &proto.interfaces[0];
    let mut table = ObjectTable::new();
    let mut msg = Message::new(1, 0);
    push_u32(&mut msg.payload, 7);
    match dispatch(&proto, iface, &mut table, &msg) {
        Err(DispatchError::InvalidObject { object, expected, found }) => {
            assert_eq!(object, 7);
            assert_eq!(expected.as_deref(), Some("surface"));
            assert_eq!(found, None);
        },
        other => panic!("expected InvalidObject, got {:?}", other),
    }
}

#[test]
fn untyped_object_argument_skips_the_interface_check() {
    let iface = interface(
        "registry",
        1,
        vec![request("inspect", vec![arg("any", DataType::Object, None)])],
        Vec::new(),
    );
    let proto = protocol(vec![iface]);
    let iface = &proto.interfaces[0];
    let mut table = ObjectTable::new();
    assert!(table.register(9, "whatever".to_string(), 3));
    let mut msg = Message::new(1, 0);
    push_u32(&mut msg.payload, 9);
    let call = dispatch(&proto, iface, &mut table, &msg).unwrap();
    assert!(matches!(call.args[0], ArgValue::Object(9)));
    assert!(table.entries[0].leased);
}

#[test]
fn static_new_id_registers_at_declared_version() {
    let surface = interface("surface", 4, Vec::new(), Vec::new());
    let compositor = interface(
        "compositor",
        1,
        vec![request("create_surface", vec![arg("id", DataType::NewId, Some("surface"))])],
        Vec::new(),
    );
    let proto = protocol(vec![compositor, surface]);
    let compositor = &proto.interfaces[0];
    let mut table = ObjectTable::new();
    let mut msg = Message::new(1, 0);
    push_u32(&mut msg.payload, 42);
    let call = dispatch(&proto, compositor, &mut table, &msg).unwrap();
    assert!(matches!(call.args[0], ArgValue::NewId(42)));
    assert_eq!(table.entries.len(), 1);
    assert_eq!(table.entries[0].id, 42);
    assert_eq!(table.entries[0].interface, "surface");
    assert_eq!(table.entries[0].version, 4);
    assert!(table.entries[0].leased);
}

#[test]
fn new_id_lease_can_be_released_by_id() {
    let surface = interface("surface", 4, Vec::new(), Vec::new());
    let compositor = interface(
        "compositor",
        1,
        vec![request("create_surface", vec![arg("id", DataType::NewId, Some("surface"))])],
        Vec::new(),
    );
    let proto = protocol(vec![compositor, surface]);
    let compositor = &proto.interfaces[0];
    let mut table = ObjectTable::new();
    let mut msg = Message::new(1, 0);
    push_u32(&mut msg.payload, 42);
    dispatch(&proto, compositor, &mut table, &msg).unwrap();
    assert!(table.entries[0].leased);
    table.release(42);
    assert!(!table.entries[0].leased);
}

#[test]
fn an_object_on_loan_cannot_be_leased_again() {
    // Leases are exclusive: a message naming one object twice finds it
    // already checked out the second time.
    let iface = interface(
        "compositor",
        1,
        vec![request(
            "link",
            vec![
                arg("a", DataType::Object, Some("surface")),
                arg("b", DataType::Object, Some("surface")),
            ],
        )],
        Vec::new(),
    );
    let proto = protocol(vec![iface]);
    let iface = &proto.interfaces[0];
    let mut table = ObjectTable::new();
    assert!(table.register(7, "surface".to_string(), 1));
    let mut msg = Message::new(1, 0);
    push_u32(&mut msg.payload, 7);
    push_u32(&mut msg.payload, 7);
    match dispatch(&proto, iface, &mut table, &msg) {
        Err(DispatchError::InvalidObject { object, expected, found }) => {
            assert_eq!(object, 7);
            assert_eq!(expected.as_deref(), Some("surface"));
            assert_eq!(found, None);
        },
        other => panic!("expected InvalidObject, got {:?}", other),
    }
    // The failure rolled the first acquisition back.
    assert!(!table.entries[0].leased);
}

#[test]
fn colliding_new_id_is_refused_and_table_untouched() {
    let surface = interface("surface", 4, Vec::new(), Vec::new());
    let compositor = interface(
        "compositor",
        1,
        vec![request("create_surface", vec![arg("id", DataType::NewId, Some("surface"))])],
        Vec::new(),
    );
    let proto = protocol(vec![compositor, surface]);
    let compositor = &proto.interfaces[0];
    let mut table = ObjectTable::new();
    assert!(table.register(42, "wl_output".to_string(), 1));
    let mut msg = Message::new(1, 0);
    push_u32(&mut msg.payload, 42);
    match dispatch(&proto, compositor, &mut table, &msg) {
        Err(DispatchError::InvalidObject { object, expected, found }) => {
            assert_eq!(object, 42);
            assert_eq!(expected.as_deref(), Some("surface"));
            assert_eq!(found.as_deref(), Some("wl_output"));
        },
        other => panic!("expected InvalidObject, got {:?}", other),
    }
    assert_eq!(table.entries.len(), 1);
    assert!(!table.entries[0].leased);
}

#[test]
fn dynamic_new_id_decodes_name_version_id_in_order() {
    // Concrete scenario: a dynamic new-id argument decodes an interface
    // name "foo", version 3 and id 42; the registration token carries
    // exactly those three values.
    let registry = interface(
        "registry",
        1,
        vec![request("bind", vec![arg("id", DataType::NewId, None)])],
        Vec::new(),
    );
    let proto = protocol(vec![registry]);
    let registry = &proto.interfaces[0];
    let mut table = ObjectTable::new();
    let mut msg = Message::new(1, 0);
    push_bytes(&mut msg.payload, &b"foo".to_vec());
    push_u32(&mut msg.payload, 3);
    push_u32(&mut msg.payload, 42);
    let call = dispatch(&proto, registry, &mut table, &msg).unwrap();
    match &call.args[0] {
        ArgValue::DynNewId(n) => {
            assert_eq!(n.interface, b"foo");
            assert_eq!(n.version, 3);
            assert_eq!(n.id, 42);
        },
        other => panic!("expected DynNewId, got {:?}", other),
    }
    // The embedder resolves the name; nothing was registered here.
    assert!(table.entries.is_empty());
}

#[test]
fn event_with_string_and_fd_encodes_in_order() {
    let ev = event(
        "describe",
        vec![
            arg("label", DataType::String, None),
            arg("pipe", DataType::Fd, None),
            arg("serial", DataType::Uint, None),
        ],
    );
    let values =
        vec![ArgValue::Str(b"top".to_vec()), ArgValue::Fd(11), ArgValue::Uint(77)];
    let msg = encode_event(&ev, 3, 1, &values);
    let mut expected: Vec<u8> = Vec::new();
    push_bytes(&mut expected, &b"top".to_vec());
    push_u32(&mut expected, 77);
    assert_eq!(msg.payload, expected);
    assert_eq!(msg.fds, vec![11]);
}

#[test]
fn event_round_trips_through_matching_request() {
    // Encode an event's arguments, then decode them with a request that
    // declares the same data-type sequence: the values come back.
    let shape = vec![
        arg("a", DataType::Int, None),
        arg("b", DataType::Uint, None),
        arg("c", DataType::Fixed, None),
        arg("d", DataType::String, None),
        arg("e", DataType::Array, None),
    ];
    let ev = event("snapshot", shape.clone());
    let iface =
        interface("mirror", 1, vec![request("restore", shape)], Vec::new());
    let proto = protocol(vec![iface]);
    let iface = &proto.interfaces[0];
    let values = vec![
        ArgValue::Int(-5),
        ArgValue::Uint(6),
        ArgValue::Fixed(384),
        ArgValue::Str(b"state".to_vec()),
        ArgValue::Array(vec![1, 2, 3, 4]),
    ];
    let encoded = encode_event(&ev, 8, 0, &values);
    let mut table = ObjectTable::new();
    let msg = Message { object: 8, opcode: 0, payload: encoded.payload, fds: encoded.fds };
    let call = dispatch(&proto, iface, &mut table, &msg).unwrap();
    assert!(matches!(call.args[0], ArgValue::Int(-5)));
    assert!(matches!(call.args[1], ArgValue::Uint(6)));
    assert!(matches!(call.args[2], ArgValue::Fixed(384)));
    match (&call.args[3], &call.args[4]) {
        (ArgValue::Str(s), ArgValue::Array(a)) => {
            assert_eq!(s, b"state");
            assert_eq!(a, &vec![1, 2, 3, 4]);
        },
        other => panic!("expected Str and Array, got {:?}", other),
    }
}
