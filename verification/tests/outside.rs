use agent_witness::json::{remove_member, set_member, Json};
use agent_witness::outside::{parse, parse_bytes, pretty, write_object, Real};

#[test]
fn values_are_read_with_their_members_in_order() {
    let value = parse(r#"{"b":[1,-2,true,null,"x"],"a":{}}"#).unwrap();
    let Json::Object(members) = &value else {
        panic!("an object");
    };
    assert_eq!(members[0].0, "a");
    assert_eq!(members[1].0, "b");
    assert_eq!(
        members[1].1,
        Json::Array(vec![
            Json::Uint(1),
            Json::Int(-2),
            Json::Bool(true),
            Json::Null,
            Json::Str("x".to_string()),
        ])
    );
    assert!(parse("{ not json").is_err());
    assert!(parse("").is_err());
}

#[test]
fn bytes_are_read_like_text() {
    assert_eq!(parse_bytes(b"[7]").unwrap(), Json::Array(vec![Json::Uint(7)]));
    assert!(parse_bytes(&[0xff, 0xfe]).is_err());
    assert!(parse_bytes(b"{").is_err());
}

#[test]
fn what_is_written_is_read_back() {
    let text = r#"{"a":[1,-2,1.5,"line\nfeed"],"b":{"c":null}}"#;
    let value = parse(text).unwrap();
    assert_eq!(parse(&pretty(&value)).unwrap(), value);
    assert_eq!(pretty(&parse(r#"{"a":1}"#).unwrap()), "{\n  \"a\": 1\n}");
}

#[test]
fn members_are_written_in_the_order_given() {
    let members = vec![
        ("z".to_string(), Json::Uint(1)),
        ("a".to_string(), Json::Str("q\"".to_string())),
    ];
    assert_eq!(
        String::from_utf8(write_object(&members)).unwrap(),
        r#"{"z":1,"a":"q\""}"#
    );
}

#[test]
fn reals_are_carried_through() {
    let value = parse("0.25").unwrap();
    assert!(matches!(value, Json::Real(_)));
    assert_eq!(value.as_i64(), None);
    assert_eq!(pretty(&value), "0.25");
    assert!(Real::new(serde_json::Number::from(3)).is_none());
    let real = Real::new(serde_json::Number::from_f64(0.5).unwrap()).unwrap();
    assert_eq!(pretty(&Json::Real(real.copy())), "0.5");
}

#[test]
fn members_are_set_and_removed() {
    let mut members = Vec::new();
    set_member(&mut members, "b", Json::Uint(1));
    set_member(&mut members, "a", Json::Uint(2));
    set_member(&mut members, "b", Json::Uint(3));
    assert_eq!(
        members,
        vec![("a".to_string(), Json::Uint(2)), ("b".to_string(), Json::Uint(3))]
    );
    remove_member(&mut members, "a");
    assert_eq!(members.len(), 1);
    let value = Json::Object(members);
    assert_eq!(value.get("b").unwrap().as_u64(), Some(3));
    assert_eq!(value.get("a"), None);
    assert!(value.is_object());
    assert_eq!(Json::Uint(u64::MAX).as_i64(), None);
    assert_eq!(Json::Int(-1).as_u64(), None);
}
