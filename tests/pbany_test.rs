use prost_wkt_types::any::{
    check_any_fields, Any, AnyErrorKind, AnyValue, DynamicMessage, Empty, FieldProblem,
    MessageKind, MessageSerde, MessageSerdeDecoderEntry, TypeRegistry, TypeUrl,
};
use prost_wkt_types::time::{Duration, Timestamp};

#[test]
fn check_prost_any_serialization() {
    let message = Timestamp::date(2000, 1, 1).unwrap();
    let any = Any::from_msg(&message).unwrap();
    assert_eq!(&any.type_url, "type.googleapis.com/google.protobuf.Timestamp");

    let message2 = any.to_msg::<Timestamp>().unwrap();
    assert_eq!(message, message2);

    // Wrong type URL
    assert!(any.to_msg::<Duration>().is_err());
}

#[test]
fn convert_unit() {
    let msg: Empty = ().into();
    assert_eq!(msg, Empty {});
}

#[test]
fn test_pbempty_creation() {
    let empty = Empty {};
    assert_eq!(empty, Empty::default());
}

#[test]
fn test_pbempty_clone_and_debug() {
    let empty = Empty {};
    let cloned = empty.clone();
    assert_eq!(empty, cloned);
    let debug_str = format!("{:?}", empty);
    assert_eq!(debug_str, "Empty");
}

#[test]
fn test_pbempty_from_unit() {
    let empty: Empty = ().into();
    assert_eq!(empty, Empty {});
}

#[test]
fn test_pbempty_default() {
    let empty1 = Empty::default();
    let empty2 = Empty {};
    assert_eq!(empty1, empty2);
}

#[test]
fn test_any_with_empty_type_url() {
    let empty_any = Any { type_url: "".to_string(), value: vec![] };
    let registry = TypeRegistry::with_well_known_types();
    match empty_any.value_field(&registry) {
        AnyValue::Bytes(b) => assert!(b.is_empty()),
        AnyValue::Message(_) => panic!("an empty type URL is not registered"),
    }
}

#[test]
fn timestamp_wire_form_is_prost_encoding() {
    let any = Any::try_pack(Timestamp { seconds: 1, nanos: 2 }).unwrap();
    assert_eq!(any.value, vec![0x08, 0x01, 0x10, 0x02]);
    let any = Any::try_pack(Timestamp { seconds: 0, nanos: 0 }).unwrap();
    assert!(any.value.is_empty());
    let any = Any::try_pack(Duration { seconds: 300, nanos: -1 }).unwrap();
    assert_eq!(
        any.value,
        vec![0x08, 0xac, 0x02, 0x10, 0xff, 0xff, 0xff, 0xff, 0xff, 0xff, 0xff, 0xff, 0xff, 0x01]
    );
}

#[test]
fn round_trip_through_registry() {
    let registry = TypeRegistry::with_well_known_types();
    let t = Timestamp { seconds: -62135596800, nanos: 5 };
    let any = Any::try_pack(t).unwrap();
    let unpacked = any.try_unpack(&registry).unwrap();
    assert!(unpacked.is::<Timestamp>());
    assert!(!unpacked.is::<Duration>());
    assert_eq!(unpacked.downcast_ref::<Timestamp>(), Some(&t));
    assert_eq!(unpacked.downcast_ref::<Duration>(), None);

    let d = Duration { seconds: -5, nanos: -7 };
    let unpacked = Any::try_pack(d).unwrap().try_unpack(&registry).unwrap();
    assert_eq!(unpacked.downcast_ref::<Duration>(), Some(&d));

    let unpacked = Any::try_pack(Empty {}).unwrap().try_unpack(&registry).unwrap();
    assert_eq!(unpacked.downcast_ref::<Empty>(), Some(&Empty {}));
}

#[test]
fn type_mismatch_names_both_urls() {
    let any = Any::try_pack(Timestamp { seconds: 10, nanos: 0 }).unwrap();
    let err = any.to_msg::<Duration>().unwrap_err();
    assert_eq!(err.kind, AnyErrorKind::TypeMismatch);
    assert_eq!(
        err.description,
        "expected type URL: \"type.googleapis.com/google.protobuf.Duration\" (got: \"type.googleapis.com/google.protobuf.Timestamp\")"
    );
}

#[test]
fn scheme_is_ignored_when_matching_types() {
    let any = Any { type_url: "example.com/x/google.protobuf.Duration".to_string(), value: vec![0x08, 0x03] };
    assert_eq!(any.to_msg::<Duration>().unwrap(), Duration { seconds: 3, nanos: 0 });
}

#[test]
fn unregistered_type_is_its_own_error_and_serializes_as_bytes() {
    let registry = TypeRegistry::with_well_known_types();
    let any = Any { type_url: "type.googleapis.com/any.test.Foo".to_string(), value: vec![10, 1, 65] };
    let err = any.clone().try_unpack(&registry).unwrap_err();
    assert_eq!(err.kind, AnyErrorKind::Unregistered);
    match any.value_field(&registry) {
        AnyValue::Bytes(b) => assert_eq!(b, vec![10, 1, 65]),
        AnyValue::Message(_) => panic!("the type is not registered"),
    }
}

#[test]
fn malformed_payload_is_a_decode_error() {
    let registry = TypeRegistry::with_well_known_types();
    let any = Any { type_url: Timestamp::type_url(), value: vec![0x08] };
    let err = any.try_unpack(&registry).unwrap_err();
    assert_eq!(err.kind, AnyErrorKind::Decode);
}

#[test]
fn registration_later_wins() {
    let mut registry = TypeRegistry::new();
    registry.register("a/b.C".to_string(), MessageKind::Timestamp);
    registry.register("a/b.C".to_string(), MessageKind::Duration);
    assert_eq!(registry.lookup(&"a/b.C".to_string()), Some(MessageKind::Duration));
    assert_eq!(registry.lookup(&"a/b.D".to_string()), None);
}

#[test]
fn type_url_full_names() {
    assert_eq!(TypeUrl::new("type.googleapis.com/google.protobuf.Duration").unwrap().full_name, "google.protobuf.Duration");
    assert_eq!(TypeUrl::new("a/b/c.D").unwrap().full_name, "c.D");
    assert!(TypeUrl::new("no-slash").is_none());
    assert!(TypeUrl::new("x/.leading.Dot").is_none());
}

#[test]
fn envelope_fields_are_checked() {
    let keys = vec!["value".to_string(), "@type".to_string()];
    assert_eq!(check_any_fields(&keys), Ok((1, 0)));
    let keys = vec!["@type".to_string(), "@type".to_string()];
    assert_eq!(check_any_fields(&keys).unwrap_err().problem, FieldProblem::Duplicate);
    let keys = vec!["@type".to_string(), "other".to_string(), "value".to_string()];
    let err = check_any_fields(&keys).unwrap_err();
    assert_eq!(err.problem, FieldProblem::Unknown);
    assert_eq!(err.field, "other");
    let keys = vec!["@type".to_string()];
    let err = check_any_fields(&keys).unwrap_err();
    assert_eq!(err.problem, FieldProblem::Missing);
    assert_eq!(err.field, "value");
}

#[test]
fn dynamic_message_packs_like_static() {
    let d = DynamicMessage::Duration(Duration { seconds: 1, nanos: 0 });
    let a = Any::from_dynamic(&d).unwrap();
    let b = Any::from_msg(&Duration { seconds: 1, nanos: 0 }).unwrap();
    assert_eq!(a, b);
}

#[test]
fn downcast_mut_changes_the_message() {
    let mut d = DynamicMessage::Timestamp(Timestamp { seconds: 1, nanos: 0 });
    if let Some(t) = d.downcast_mut::<Timestamp>() {
        t.seconds = 5;
    }
    assert!(d.downcast_mut::<Duration>().is_none());
    assert_eq!(d, DynamicMessage::Timestamp(Timestamp { seconds: 5, nanos: 0 }));
}

#[test]
fn pack_and_entries() {
    let any = Any::pack(Duration { seconds: 1, nanos: 0 });
    assert_eq!(any.type_url, "type.googleapis.com/google.protobuf.Duration");
    assert_eq!(any.value, vec![0x08, 0x01]);
    let entry = MessageSerdeDecoderEntry::new::<Duration>();
    assert_eq!(entry.type_url, "type.googleapis.com/google.protobuf.Duration");
    assert_eq!(entry.kind, MessageKind::Duration);
    let mut registry = TypeRegistry::new();
    registry.submit(entry);
    assert_eq!(
        any.try_unpack(&registry).unwrap().downcast_ref::<Duration>(),
        Some(&Duration { seconds: 1, nanos: 0 })
    );
}
