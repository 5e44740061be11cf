use std::str::FromStr;

use pandora_core::lockstep::{
    choose_xml_path, XmlPathChoice,
    find_definition, get_method_args_type, get_method_args_type_in_node, get_method_return_type,
    get_method_return_type_in_node, get_property_type, get_property_type_in_node,
    get_signal_body_type, get_signal_body_type_in_node, method_args_signature, read_introspection, method_return_signature, property_type_signature,
    signal_body_type_signature, ArgDirection, DefinitionSearch, IntrospectArg,
    IntrospectInterface, IntrospectMember, IntrospectNode, IntrospectProperty, LockstepError,
    MsgType, SignatureSearchError,
};
use zvariant::Signature;

fn arg(name: &str, direction: Option<ArgDirection>, ty: &str) -> IntrospectArg {
    IntrospectArg::new(Some(name), direction, ty).unwrap()
}

/// The introspection data the searches run over: one document describing
/// `org.example.Node`.
fn example_files() -> Vec<IntrospectNode> {
    let request_name = IntrospectMember::new(
        "RequestName",
        vec![
            arg("apple", Some(ArgDirection::In), "s"),
            arg("orange", Some(ArgDirection::In), "u"),
            arg("grape", Some(ArgDirection::Out), "u"),
        ],
    );
    let add_node = IntrospectMember::new("AddNode", vec![arg("nodeAdded", None, "(so)")]);
    let remove_node = IntrospectMember::new("RemoveNode", vec![arg("nodeRemoved", None, "(so)")]);
    let alert = IntrospectMember::new(
        "Alert",
        vec![arg("volume", None, "d"), arg("urgent", None, "b")],
    );
    let features = IntrospectProperty::new("Features", "as");
    let node = IntrospectNode {
        interfaces: vec![IntrospectInterface::new(
            "org.example.Node",
            vec![request_name],
            vec![add_node, remove_node, alert],
            vec![features],
        )],
    };
    vec![node]
}

#[test]
fn test_method_return_signature() {
    let files = example_files();
    let signature = method_return_signature(&files, "RequestName", None, None).unwrap();
    assert_eq!(signature, "u");
}

#[test]
fn test_method_args_signature() {
    let files = example_files();
    let signature = method_args_signature(&files, "RequestName", None, None).unwrap();
    assert_eq!(signature, "su");
}

#[test]
fn test_signal_body_type_signature() {
    let files = example_files();
    let signature = signal_body_type_signature(&files, "RemoveNode", None, None).unwrap();
    assert_eq!(signature, "(so)");
}

#[test]
fn test_property_type_signature() {
    let files = example_files();
    let signature = property_type_signature(&files, "Features", None).unwrap();
    assert_eq!(signature, "as");
}

#[test]
fn test_overlapping_names_return_type() {
    let xml = r#"<?xml version="1.0" encoding="UTF-8"?>
            <node>
                <interface name="org.example.Calculator">
                    <method name="Calculate">
                        <arg name="data" type="s" direction="in"/>
                        <arg name="data" type="ai" direction="out"/>
                    </method>
                </interface>
            </node>
        "#;

    let sig = get_method_return_type(xml, "org.example.Calculator", "Calculate", Some("data")).unwrap();

    assert_eq!(&sig.to_string(), "ai");
}

#[test]
fn test_overlapping_names_args_type_swapped() {
    let xml = r#"<?xml version="1.0" encoding="UTF-8"?>
            <node>
                <interface name="org.example.Calculator">
                    <method name="Calculate">
                        <arg name="data" type="ai" direction="out"/>
                        <arg name="data" type="s" direction="in"/>
                    </method>
                </interface>
            </node>
        "#;

    let sig = get_method_args_type(xml, "org.example.Calculator", "Calculate", Some("data")).unwrap();

    assert_eq!(&sig.to_string(), "s");
}

#[test]
fn test_get_signature_of_cache_add_accessible() {
    let xml = r#"<?xml version="1.0" encoding="UTF-8"?>
            <node xmlns:doc="http://www.freedesktop.org/dbus/1.0/doc.dtd">
                <interface name="org.a11y.atspi.Cache">
                    <signal name="AddAccessible">
                        <arg name="nodeAdded" type="((so)(so)(so)iiassusau)"/>
                        <annotation name="org.qtproject.QtDBus.QtTypeName.In0" value="QSpiAccessibleCacheItem"/>
                    </signal>
                </interface>
            </node>
        "#;

    let interface_name = "org.a11y.atspi.Cache";
    let member_name = "AddAccessible";

    let signature = get_signal_body_type(xml, interface_name, member_name, None).unwrap();
    assert_eq!(signature, Signature::from_str("((so)(so)(so)iiassusau)").unwrap());
}

#[test]
fn property_and_notify_from_xml() {
    let xml = r#"
<node>
<interface name="org.freedesktop.GeoClue2.Manager">
  <property type="b" name="InUse" access="read"/>
</interface>
<interface name="org.freedesktop.Notifications">
  <method name="Notify">
    <arg type="s" name="app_name" direction="in"/>
    <arg type="u" name="replaces_id" direction="in"/>
    <arg type="as" name="actions" direction="in"/>
    <arg type="a{sv}" name="hints" direction="in"/>
    <arg type="u" name="id" direction="out"/>
  </method>
</interface>
</node>
"#;
    assert_eq!(get_property_type(xml, "org.freedesktop.GeoClue2.Manager", "InUse").unwrap(), "b");
    assert_eq!(
        get_method_args_type(xml, "org.freedesktop.Notifications", "Notify", None).unwrap(),
        "(suasa{sv})"
    );
    let node = read_introspection(xml).unwrap();
    assert_eq!(node.interfaces.len(), 2);
    assert_eq!(node.interfaces[1].methods[0].args.len(), 5);
    assert_eq!(node.interfaces[1].methods[0].args[4].direction, Some(ArgDirection::Out));
}

#[test]
fn unreadable_xml_is_an_xml_error() {
    assert!(matches!(read_introspection("<node><interface"), Err(LockstepError::Xml(_))));
    assert!(matches!(
        get_signal_body_type("not xml at all <", "a.b", "C", None),
        Err(LockstepError::Xml(_))
    ));
}

#[test]
fn test_signal_body_signature_macro() {
    let sig = signal_body_type_signature(&example_files(), "AddNode", None, None).unwrap();
    assert_eq!(&sig, &Signature::from_str("(so)").expect("Valid signature pattern"));
}

#[test]
fn test_signal_body_signature_macro_with_identifier() {
    let sig = signal_body_type_signature(&example_files(), "AddNode", None, None).unwrap();
    assert_eq!(sig, Signature::from_str("(so)").expect("Valid signature pattern"));
}

#[test]
fn test_signal_body_signature_macro_with_interface() {
    let sig = signal_body_type_signature(&example_files(), "AddNode", Some("org.example.Node"), None)
        .unwrap();
    assert_eq!(sig, Signature::from_str("(so)").expect("Valid signature pattern"));
}

#[test]
fn test_signal_body_signature_macro_with_interface_and_identifiers() {
    let sig = signal_body_type_signature(&example_files(), "AddNode", Some("org.example.Node"), None)
        .unwrap();
    assert_eq!(sig, Signature::from_str("(so)").expect("Valid signature pattern"));
}

#[test]
fn test_signal_body_signature_macro_with_argument_and_interface() {
    let sig = signal_body_type_signature(
        &example_files(),
        "Alert",
        Some("org.example.Node"),
        Some("volume"),
    )
    .unwrap();
    assert_eq!(sig, Signature::from_str("d").expect("Valid signature pattern"));
}

#[test]
fn test_signal_body_signature_macro_with_argument_and_identifiers_and_interface() {
    let sig = signal_body_type_signature(
        &example_files(),
        "Alert",
        Some("org.example.Node"),
        Some("urgent"),
    )
    .unwrap();
    assert_eq!(sig, Signature::from_str("b").expect("Valid signature pattern"));
}

#[test]
fn test_method_args_signature_macro() {
    let sig = method_args_signature(&example_files(), "RequestName", None, None).unwrap();
    assert_eq!(sig, Signature::from_str("(su)").expect("Valid signature pattern"));
}

#[test]
fn test_method_args_signature_macro_with_identifier() {
    let sig = method_args_signature(&example_files(), "RequestName", None, None).unwrap();
    assert_eq!(sig, Signature::from_str("(su)").expect("Valid signature pattern"));
}

#[test]
fn test_method_args_signature_macro_with_interface() {
    let sig = method_args_signature(&example_files(), "RequestName", Some("org.example.Node"), None)
        .unwrap();
    assert_eq!(sig, Signature::from_str("(su)").expect("Valid signature pattern"));
}

#[test]
fn test_method_args_signature_macro_with_interface_and_identifiers() {
    let sig = method_args_signature(&example_files(), "RequestName", Some("org.example.Node"), None)
        .unwrap();
    assert_eq!(sig, Signature::from_str("(su)").expect("Valid signature pattern"));
}

#[test]
fn test_method_args_signature_macro_with_argument_and_interface() {
    let sig = method_args_signature(
        &example_files(),
        "RequestName",
        Some("org.example.Node"),
        Some("apple"),
    )
    .unwrap();
    assert_eq!(sig, Signature::from_str("s").expect("Valid signature pattern"));
}

#[test]
fn test_method_args_signature_macro_with_argument_and_identifiers_and_interface() {
    let sig = method_args_signature(
        &example_files(),
        "RequestName",
        Some("org.example.Node"),
        Some("orange"),
    )
    .unwrap();
    assert_eq!(sig, Signature::from_str("u").expect("Valid signature pattern"));
}

#[test]
fn test_method_return_signature_macro() {
    let sig = method_return_signature(&example_files(), "RequestName", None, None).unwrap();
    assert_eq!(sig, Signature::from_str("u").expect("Valid signatuee pattern"));
}

#[test]
fn test_method_return_signature_macro_with_identifier() {
    let sig = method_return_signature(&example_files(), "RequestName", None, None).unwrap();
    assert_eq!(sig, Signature::from_str("u").expect("Valid signature pattern"));
}

#[test]
fn test_method_return_signature_macro_with_interface() {
    let sig =
        method_return_signature(&example_files(), "RequestName", Some("org.example.Node"), None)
            .unwrap();
    assert_eq!(sig, Signature::from_str("u").expect("Valid signature pattern"));
}

#[test]
fn test_method_return_signature_macro_with_interface_and_identifiers() {
    let sig =
        method_return_signature(&example_files(), "RequestName", Some("org.example.Node"), None)
            .unwrap();
    assert_eq!(sig, Signature::from_str("u").expect("Vlaid signature pattern"));
}

#[test]
fn test_method_return_signature_macro_with_argument_and_interface() {
    let sig = method_return_signature(
        &example_files(),
        "RequestName",
        Some("org.example.Node"),
        Some("grape"),
    )
    .unwrap();
    assert_eq!(sig, Signature::from_str("u").expect("Vlaid signature pattern"));
}

#[test]
fn test_method_return_signature_macro_with_argument_and_identifiers_and_interface() {
    let sig = method_return_signature(
        &example_files(),
        "RequestName",
        Some("org.example.Node"),
        Some("grape"),
    )
    .unwrap();
    assert_eq!(sig, Signature::from_str("u").expect("Vlaid signature pattern"));
}

#[test]
fn test_property_type_signature_macro() {
    let sig = property_type_signature(&example_files(), "Features", None).unwrap();
    assert_eq!(sig, Signature::from_str("as").expect("Vlaid signature pattern"));
}

#[test]
fn test_property_type_signature_macro_with_identifier() {
    let sig = property_type_signature(&example_files(), "Features", None).unwrap();
    assert_eq!(sig, Signature::from_str("as").expect("Vlaid signature pattern"));
}

#[test]
fn test_property_type_signature_macro_with_interface() {
    let sig = property_type_signature(&example_files(), "Features", Some("org.example.Node")).unwrap();
    assert_eq!(sig, Signature::from_str("as").expect("Vlaid signature pattern"));
}

#[test]
fn test_property_type_signature_macro_with_interface_and_identifiers() {
    let sig = property_type_signature(&example_files(), "Features", Some("org.example.Node")).unwrap();
    assert_eq!(sig, Signature::from_str("as").expect("Vlaid signature pattern"));
}

#[test]
fn missing_parts_are_named_in_the_error() {
    let node = &example_files()[0];
    match get_method_return_type_in_node(node, "org.example.Other", "RequestName", None) {
        Err(LockstepError::InterfaceNotFound(n)) => assert_eq!(n, "org.example.Other"),
        other => panic!("unexpected {other:?}"),
    }
    match get_method_return_type_in_node(node, "org.example.Node", "Missing", None) {
        Err(LockstepError::MemberNotFound(n)) => assert_eq!(n, "Missing"),
        other => panic!("unexpected {other:?}"),
    }
    match get_method_return_type_in_node(node, "org.example.Node", "RequestName", Some("apple")) {
        Err(LockstepError::ArgumentNotFound(n)) => assert_eq!(n, "apple"),
        other => panic!("unexpected {other:?}"),
    }
    match get_property_type_in_node(node, "org.example.Node", "Volume") {
        Err(LockstepError::PropertyNotFound(n)) => assert_eq!(n, "Volume"),
        other => panic!("unexpected {other:?}"),
    }
}

#[test]
fn an_invalid_joined_signature_is_a_zvariant_error() {
    let node = IntrospectNode {
        interfaces: vec![IntrospectInterface::new(
            "org.example.Bad",
            vec![],
            vec![],
            vec![IntrospectProperty::new("Broken", "a")],
        )],
    };
    assert!(matches!(
        get_property_type_in_node(&node, "org.example.Bad", "Broken"),
        Err(LockstepError::Zvariant(_))
    ));
    assert!(IntrospectArg::new(Some("x"), None, "(").is_err());
}

#[test]
fn a_member_in_two_interfaces_is_ambiguous() {
    let mut files = example_files();
    files.push(IntrospectNode {
        interfaces: vec![IntrospectInterface::new(
            "org.example.Other",
            vec![IntrospectMember::new("RequestName", vec![])],
            vec![],
            vec![],
        )],
    });
    assert!(matches!(
        method_return_signature(&files, "RequestName", None, None),
        Err(SignatureSearchError::Ambiguous(MsgType::Method))
    ));
    // Naming the interface settles it; the second document's method has no output.
    let sig = method_return_signature(&files, "RequestName", Some("org.example.Other"), None)
        .unwrap();
    assert_eq!(sig, "");
    assert!(matches!(
        find_definition(&files, "RequestName", Some("org.example.Node"), MsgType::Method),
        DefinitionSearch::Found(0, ref name) if name == "org.example.Node"
    ));
    assert!(matches!(
        find_definition(&files, "Nothing", None, MsgType::Signal),
        DefinitionSearch::NotFound
    ));
    assert!(matches!(
        method_return_signature(&files, "Nothing", None, None),
        Err(SignatureSearchError::NotFound)
    ));
}

#[test]
fn error_messages_name_what_is_missing() {
    assert_eq!(
        LockstepError::ArgumentNotFound("apple".into()).message(),
        "Argument \"apple\" not found."
    );
    assert_eq!(
        LockstepError::InterfaceNotFound("org.x".into()).message(),
        "Interface \"org.x\" not found."
    );
    assert_eq!(LockstepError::Io("denied".into()).message(), "IO error: denied");
}

#[test]
fn xml_path_precedence() {
    let none = vec![false, false, false, false, false, false];
    let third = vec![false, false, true, false, true, false];
    assert_eq!(choose_xml_path(true, true, &third), XmlPathChoice::Environment);
    assert_eq!(choose_xml_path(false, true, &third), XmlPathChoice::Argument);
    assert_eq!(choose_xml_path(false, false, &third), XmlPathChoice::Candidate(2));
    assert_eq!(choose_xml_path(false, false, &none), XmlPathChoice::NotFound);
    assert_eq!(choose_xml_path(false, false, &vec![]), XmlPathChoice::NotFound);
}
