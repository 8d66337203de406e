//! Compiler-pass tests: binding resolution, schema validation, enum
//! compilation and validation, parameter shapes and trace format strings.

use wl_protocol::binding::{resolve, BindingSet, ResolutionContext};
use wl_protocol::compile::{
    build_trace_format, compile_interface, compile_protocol, validate, ParamType,
};
use wl_protocol::enums::compile_enum;
use wl_protocol::error::{CompileError, DispatchError};
use wl_protocol::protocol::{Arg, DataType, Entry, Enum, Event, Interface, Protocol, Request};

fn arg(name: &str, kind: DataType, interface: Option<&str>) -> Arg {
    Arg {
        name: name.to_string(),
        kind,
        interface: interface.map(|s| s.to_string()),
        enumeration: None,
        summary: None,
    }
}

fn request(name: &str, args: Vec<Arg>) -> Request {
    Request {
        name: name.to_string(),
        since: None,
        destructor: false,
        summary: None,
        description: None,
        args,
    }
}

fn event(name: &str, args: Vec<Arg>) -> Event {
    Event { name: name.to_string(), since: None, summary: None, description: None, args }
}

fn entry(name: &str, value: u32) -> Entry {
    Entry { name: name.to_string(), since: None, summary: None, description: None, value }
}

fn an_enum(name: &str, entries: Vec<Entry>) -> Enum {
    Enum { name: name.to_string(), summary: None, description: None, since: None, entries }
}

fn interface(name: &str, version: u32, requests: Vec<Request>, events: Vec<Event>) -> Interface {
    Interface {
        name: name.to_string(),
        summary: None,
        description: None,
        version,
        enums: Vec::new(),
        requests,
        events,
    }
}

fn protocol(interfaces: Vec<Interface>) -> Protocol {
    Protocol {
        name: "TestProtocol".to_string(),
        summary: None,
        description: None,
        copyright: Some("notice".to_string()),
        interfaces,
    }
}

fn bind(pairs: &[(&str, &str, bool)]) -> BindingSet {
    let mut set = BindingSet::new();
    for (iface, imp, external) in pairs {
        set.insert(iface.to_string(), imp.to_string(), *external).unwrap();
    }
    set
}

#[test]
fn resolution_succeeds_when_every_reference_is_bound() {
    let compositor = interface(
        "compositor",
        1,
        vec![request("create_surface", vec![arg("id", DataType::NewId, Some("surface"))])],
        Vec::new(),
    );
    let surface = interface("surface", 4, Vec::new(), Vec::new());
    let proto = protocol(vec![compositor, surface]);
    let bindings = bind(&[("compositor", "MyCompositor", false), ("surface", "MySurface", false)]);
    assert!(resolve(&proto, bindings).is_ok());
}

#[test]
fn missing_reference_fails_naming_the_interface() {
    let compositor = interface(
        "compositor",
        1,
        vec![request("create_surface", vec![arg("id", DataType::NewId, Some("surface"))])],
        Vec::new(),
    );
    let surface = interface("surface", 4, Vec::new(), Vec::new());
    let proto = protocol(vec![compositor, surface]);
    let bindings = bind(&[("compositor", "MyCompositor", false)]);
    match resolve(&proto, bindings) {
        Err(CompileError::UnresolvedDependency { owner_interface, missing_interface }) => {
            assert_eq!(owner_interface, "compositor");
            assert_eq!(missing_interface, "surface");
        },
        other => panic!("expected UnresolvedDependency, got {:?}", other),
    }
}

#[test]
fn external_binding_does_not_satisfy_a_reference() {
    let compositor = interface(
        "compositor",
        1,
        vec![request("create_surface", vec![arg("id", DataType::NewId, Some("surface"))])],
        Vec::new(),
    );
    let surface = interface("surface", 4, Vec::new(), Vec::new());
    let proto = protocol(vec![compositor, surface]);
    let bindings = bind(&[
        ("compositor", "MyCompositor", false),
        ("surface", "elsewhere::Surface", true),
    ]);
    match resolve(&proto, bindings) {
        Err(CompileError::UnresolvedDependency { missing_interface, .. }) => {
            assert_eq!(missing_interface, "surface");
        },
        other => panic!("expected UnresolvedDependency, got {:?}", other),
    }
}

#[test]
fn unbound_interface_imposes_no_reference_check() {
    // `compositor` references `surface`, but nothing binds `compositor`,
    // so it is not compiled and the reference imposes nothing.
    let compositor = interface(
        "compositor",
        1,
        vec![request("create_surface", vec![arg("id", DataType::NewId, Some("surface"))])],
        Vec::new(),
    );
    let proto = protocol(vec![compositor]);
    let bindings = BindingSet::new();
    assert!(resolve(&proto, bindings).is_ok());
}

#[test]
fn binding_for_undeclared_interface_is_unknown() {
    let proto = protocol(vec![interface("surface", 1, Vec::new(), Vec::new())]);
    let bindings = bind(&[("ghost", "MyGhost", false)]);
    match resolve(&proto, bindings) {
        Err(CompileError::UnknownInterface { declared_name }) => {
            assert_eq!(declared_name, "ghost");
        },
        other => panic!("expected UnknownInterface, got {:?}", other),
    }
}

#[test]
fn external_binding_may_name_an_undeclared_interface() {
    let proto = protocol(vec![interface("surface", 1, Vec::new(), Vec::new())]);
    let bindings = bind(&[("ghost", "elsewhere::Ghost", true)]);
    assert!(resolve(&proto, bindings).is_ok());
}

#[test]
fn duplicate_binding_is_refused() {
    let mut set = BindingSet::new();
    set.insert("surface".to_string(), "A".to_string(), false).unwrap();
    match set.insert("surface".to_string(), "B".to_string(), false) {
        Err(CompileError::DuplicateBinding { interface }) => assert_eq!(interface, "surface"),
        other => panic!("expected DuplicateBinding, got {:?}", other),
    }
    // Snake-case normalisation makes `Surface` the same interface.
    match set.insert("Surface".to_string(), "C".to_string(), false) {
        Err(CompileError::DuplicateBinding { interface }) => assert_eq!(interface, "Surface"),
        other => panic!("expected DuplicateBinding, got {:?}", other),
    }
}

#[test]
fn enum_constructor_accepts_every_declared_value() {
    let e = an_enum(
        "keymap_format",
        vec![entry("no_keymap", 0), entry("xkb_v1", 1)],
    );
    let t = compile_enum(&"keyboard".to_string(), &e).unwrap();
    assert_eq!(t.new(0).unwrap(), 0);
    assert_eq!(t.new(1).unwrap(), 1);
    match t.new(2) {
        Err(DispatchError::NoVariant { name, value }) => {
            assert_eq!(name, "keyboard.keymap_format");
            assert_eq!(value, 2);
        },
        other => panic!("expected NoVariant, got {:?}", other),
    }
}

#[test]
fn bitfield_enum_may_repeat_values() {
    let e = an_enum("mode", vec![entry("default", 1), entry("fallback", 1)]);
    let t = compile_enum(&"output".to_string(), &e).unwrap();
    assert_eq!(t.entries.len(), 2);
    assert_eq!(t.new(1).unwrap(), 1);
}

#[test]
fn numeric_entry_names_take_the_interface_prefix() {
    let e = an_enum("transform", vec![entry("normal", 0), entry("90", 1)]);
    let t = compile_enum(&"foo".to_string(), &e).unwrap();
    assert_eq!(t.rust_name, "FooTransform");
    assert_eq!(t.wl_name, "foo.transform");
    assert_eq!(t.entries[0].name, "NORMAL");
    assert_eq!(t.entries[1].name, "FOO_90");
}

#[test]
fn empty_entry_name_takes_the_interface_prefix() {
    let e = an_enum("transform", vec![entry("", 0)]);
    let t = compile_enum(&"foo".to_string(), &e).unwrap();
    assert_eq!(t.entries[0].name, "FOO_");
}

#[test]
fn unbound_static_new_id_reference_is_refused_by_the_interface_compiler() {
    // Even without a resolution pass, compiling the interface alone refuses
    // a static new-id reference that no binding realises, naming the owner
    // and the missing interface.
    let compositor = interface(
        "compositor",
        1,
        vec![request("create_surface", vec![arg("id", DataType::NewId, Some("surface"))])],
        Vec::new(),
    );
    let ctx = ResolutionContext { bindings: bind(&[("compositor", "MyCompositor", false)]) };
    match compile_interface(&compositor, &ctx) {
        Err(CompileError::UnresolvedDependency { owner_interface, missing_interface }) => {
            assert_eq!(owner_interface, "compositor");
            assert_eq!(missing_interface, "surface");
        },
        other => panic!("expected UnresolvedDependency, got {:?}", other),
    }
}

#[test]
fn colliding_normalised_entry_names_are_refused() {
    let e = an_enum("mode", vec![entry("deepSleep", 0), entry("DeepSleep", 1)]);
    match compile_enum(&"output".to_string(), &e) {
        Err(CompileError::DuplicateEntry { enumeration, entry }) => {
            assert_eq!(enumeration, "output.mode");
            assert_eq!(entry, "DEEP_SLEEP");
        },
        other => panic!("expected DuplicateEntry, got {:?}", other),
    }
}

#[test]
fn trace_format_quotes_strings_and_marks_new_ids() {
    let args = vec![
        arg("serial", DataType::Uint, None),
        arg("label", DataType::String, None),
        arg("id", DataType::NewId, None),
        arg("child", DataType::NewId, Some("surface")),
        arg("target", DataType::Object, Some("surface")),
    ];
    let s = build_trace_format("{}@{}.{}(", &args);
    assert_eq!(s, "{}@{}.{}({}, {:?}, dyn {}, dyn {}, {})");
    let none: Vec<Arg> = Vec::new();
    assert_eq!(build_trace_format("{}@{}.{}(", &none), "{}@{}.{}()");
}

#[test]
fn interface_contract_carries_methods_and_shapes() {
    let compositor = interface(
        "compositor",
        3,
        vec![request(
            "create_surface",
            vec![
                arg("id", DataType::NewId, Some("surface")),
                arg("parent", DataType::Object, Some("surface")),
                arg("title", DataType::String, None),
            ],
        )],
        vec![event("pong", vec![arg("serial", DataType::Uint, None)])],
    );
    let surface = interface("surface", 4, Vec::new(), Vec::new());
    let proto = protocol(vec![compositor, surface]);
    let bindings = bind(&[("compositor", "MyCompositor", false), ("surface", "MySurface", false)]);
    let ctx = resolve(&proto, bindings).unwrap();
    let c = compile_interface(&proto.interfaces[0], &ctx).unwrap();
    assert_eq!(c.rust_name, "Compositor");
    assert_eq!(c.interface, "compositor");
    assert_eq!(c.version, 3);
    assert_eq!(c.implementation.as_deref(), Some("MyCompositor"));
    assert_eq!(c.requests.len(), 1);
    assert_eq!(c.requests[0].name, "create_surface");
    assert!(matches!(c.requests[0].params[0], ParamType::NewId));
    match &c.requests[0].params[1] {
        ParamType::Lease(imp) => assert_eq!(imp, "MySurface"),
        other => panic!("expected Lease, got {:?}", other),
    }
    assert!(matches!(c.requests[0].params[2], ParamType::Str));
    assert_eq!(c.requests[0].trace_format, "{}@{}.{}(dyn {}, {}, {:?})");
    assert_eq!(c.events.len(), 1);
    assert_eq!(c.events[0].name, "pong");
    assert!(matches!(c.events[0].params[0], ParamType::Uint));
    assert_eq!(c.events[0].trace_format, "{}@{}.{}({})");
}

#[test]
fn event_parameter_shapes_follow_the_codec_table() {
    let cases = vec![
        (arg("a", DataType::Int, None), ParamType::Int),
        (arg("b", DataType::Uint, None), ParamType::Uint),
        (arg("c", DataType::Fixed, None), ParamType::Fixed),
        (arg("d", DataType::String, None), ParamType::Str),
        (arg("e", DataType::Array, None), ParamType::Array),
        (arg("f", DataType::Fd, None), ParamType::Fd),
        (arg("g", DataType::Object, Some("surface")), ParamType::ObjectRef),
        (arg("h", DataType::Object, None), ParamType::ObjectRef),
        (arg("i", DataType::NewId, Some("surface")), ParamType::NewId),
        (arg("j", DataType::NewId, None), ParamType::NewIdDynamic),
    ];
    for (a, want) in cases {
        let got = a.event_data_type();
        assert_eq!(
            std::mem::discriminant(&got),
            std::mem::discriminant(&want),
            "wrong shape for {:?}",
            a.name
        );
    }
}

#[test]
fn debug_string_fragments() {
    assert_eq!(arg("a", DataType::Uint, None).debug_string(), "{}");
    assert_eq!(arg("b", DataType::String, None).debug_string(), "{:?}");
    assert_eq!(arg("c", DataType::NewId, None).debug_string(), "dyn {}");
    assert_eq!(arg("d", DataType::NewId, Some("surface")).debug_string(), "dyn {}");
    assert_eq!(arg("e", DataType::Object, Some("surface")).debug_string(), "{}");
}

#[test]
fn validate_refuses_duplicate_interfaces() {
    let proto = protocol(vec![
        interface("surface", 1, Vec::new(), Vec::new()),
        interface("surface", 2, Vec::new(), Vec::new()),
    ]);
    match validate(&proto) {
        Err(CompileError::DuplicateInterface { name }) => assert_eq!(name, "surface"),
        other => panic!("expected DuplicateInterface, got {:?}", other),
    }
}

#[test]
fn validate_refuses_version_zero() {
    let proto = protocol(vec![interface("surface", 0, Vec::new(), Vec::new())]);
    match validate(&proto) {
        Err(CompileError::InvalidVersion { interface, version }) => {
            assert_eq!(interface, "surface");
            assert_eq!(version, 0);
        },
        other => panic!("expected InvalidVersion, got {:?}", other),
    }
}

#[test]
fn validate_refuses_duplicate_message_names() {
    let proto = protocol(vec![interface(
        "surface",
        1,
        vec![request("commit", Vec::new()), request("commit", Vec::new())],
        Vec::new(),
    )]);
    match validate(&proto) {
        Err(CompileError::DuplicateMessage { interface, name }) => {
            assert_eq!(interface, "surface");
            assert_eq!(name, "commit");
        },
        other => panic!("expected DuplicateMessage, got {:?}", other),
    }
}

#[test]
fn compile_protocol_emits_bound_contracts_and_all_enums() {
    let mut output = interface("output", 2, Vec::new(), Vec::new());
    output.enums.push(an_enum("transform", vec![entry("normal", 0), entry("90", 1)]));
    let mut seat = interface("seat", 5, Vec::new(), Vec::new());
    seat.enums.push(an_enum("capability", vec![entry("pointer", 1), entry("keyboard", 2)]));
    let proto = protocol(vec![output, seat]);
    // Only `output` is bound: one contract, but both interfaces' enums.
    let bindings = bind(&[("output", "MyOutput", false)]);
    let cp = compile_protocol(&proto, bindings).unwrap();
    assert_eq!(cp.name, "test_protocol");
    assert_eq!(cp.copyright.as_deref(), Some("notice"));
    assert_eq!(cp.interfaces.len(), 1);
    assert_eq!(cp.interfaces[0].interface, "output");
    assert_eq!(cp.enums.len(), 2);
    assert_eq!(cp.enums[0].rust_name, "OutputTransform");
    assert_eq!(cp.enums[1].rust_name, "SeatCapability");
}

#[test]
fn compile_protocol_stops_on_the_first_offence() {
    let bad = protocol(vec![interface("surface", 0, Vec::new(), Vec::new())]);
    assert!(matches!(
        compile_protocol(&bad, BindingSet::new()),
        Err(CompileError::InvalidVersion { .. })
    ));
    let referencing = protocol(vec![
        interface(
            "compositor",
            1,
            vec![request("create_surface", vec![arg("id", DataType::NewId, Some("surface"))])],
            Vec::new(),
        ),
        interface("surface", 4, Vec::new(), Vec::new()),
    ]);
    let bindings = bind(&[("compositor", "MyCompositor", false)]);
    assert!(matches!(
        compile_protocol(&referencing, bindings),
        Err(CompileError::UnresolvedDependency { .. })
    ));
}
