use typed_value_decoder::decode::{decode_bytes, decode_labels, decode_path, open_envelope};
use typed_value_decoder::error::DecodeError;
use typed_value_decoder::json::find_member;
use typed_value_decoder::scalar::{check_float, decode_integer, parse_integer};
use typed_value_decoder::temporal::{
    check_shape, decode_date, decode_date_time, decode_duration, decode_time,
    decode_zone_date_time, parse_duration, temporal_from_parsed,
};
use typed_value_decoder::text::{str_eq, to_chars};
use typed_value_decoder::trace::{decode_located, locate, Failure, Step};
use typed_value_decoder::{
    decode, decode_with_limit, Date, DateTime, Duration, Json, JsonNumber, Member, Time, Val,
    ValMap, ZoneDateTime, DEFAULT_DEPTH_LIMIT,
};

fn text(s: &str) -> Json {
    Json::String(s.to_string())
}

fn whole(n: i128) -> Json {
    Json::Number(JsonNumber::Integer(n))
}

fn object(members: Vec<(&str, Json)>) -> Json {
    Json::Object(
        members.into_iter().map(|(key, value)| Member { key: key.to_string(), value }).collect(),
    )
}

fn envelope(tag: &str, payload: Json) -> Json {
    object(vec![("$type", text(tag)), ("_value", payload)])
}

fn node(id: &str, label: &str) -> Json {
    envelope(
        "Node",
        object(vec![
            ("_element_id", text(id)),
            ("_labels", Json::Array(vec![text(label)])),
            ("_properties", object(vec![])),
        ]),
    )
}

fn relationship(id: &str, start: &str, end: &str) -> Json {
    envelope(
        "Relationship",
        object(vec![
            ("_element_id", text(id)),
            ("_start_node_element_id", text(start)),
            ("_end_node_element_id", text(end)),
            ("_type", text("KNOWS")),
            ("_properties", object(vec![])),
        ]),
    )
}

fn error_of(json: &Json) -> DecodeError {
    decode(json).unwrap_err()
}

fn nested_lists(depth: usize) -> Json {
    let mut json = envelope("Integer", text("7"));
    for _ in 0..depth {
        json = envelope("List", Json::Array(vec![json]));
    }
    json
}

fn list_depth(value: &Val) -> usize {
    match value {
        Val::List { value } => 1 + list_depth(&value[0]),
        Val::Integer { value } => {
            assert_eq!(*value, 7);
            0
        }
        _ => panic!("neither a list nor the leaf"),
    }
}

#[test]
fn integers_in_range_decode_exactly() {
    for n in [0i64, 1, -1, 10, -10, 1234567890123, i64::MAX, i64::MIN] {
        assert_eq!(parse_integer(&n.to_string()), Some(n));
        match decode(&envelope("Integer", text(&n.to_string()))).unwrap() {
            Val::Integer { value } => assert_eq!(value, n),
            _ => panic!("not an integer"),
        }
    }
    assert_eq!(parse_integer("+5"), Some(5));
    assert_eq!(parse_integer("007"), Some(7));
    assert_eq!(parse_integer("-0"), Some(0));
}

#[test]
fn integers_out_of_range_are_rejected() {
    assert_eq!(decode_integer("9223372036854775808"), Err(DecodeError::NumericParseError));
    assert_eq!(decode_integer("-9223372036854775809"), Err(DecodeError::NumericParseError));
    assert_eq!(
        decode_integer("99999999999999999999999999999999999999999999"),
        Err(DecodeError::NumericParseError)
    );
    assert_eq!(decode_integer("-9223372036854775808"), Ok(i64::MIN));
    assert_eq!(
        error_of(&envelope("Integer", text("9223372036854775808"))),
        DecodeError::NumericParseError
    );
}

#[test]
fn integers_with_garbage_are_rejected() {
    for bad in ["", "+", "-", "1a", "a1", " 1", "1 ", "1.0", "--1", "1-", "0x10", "１２"] {
        assert_eq!(parse_integer(bad), None, "{:?}", bad);
        assert_eq!(parse_integer(bad), bad.parse::<i64>().ok(), "{:?}", bad);
    }
}

#[test]
fn integer_payload_must_be_a_string() {
    assert_eq!(error_of(&envelope("Integer", whole(10))), DecodeError::MalformedEnvelope);
}

#[test]
fn float_grammar_agrees_with_the_standard_parser() {
    for s in [
        "1.0", "1", "-1", "+1.5", "1.", ".5", "1e5", "1E5", "1e+5", "1e-5", "1.5e10", ".5e1", "1.e1",
        "inf", "-inf", "+Infinity", "INF", "nan", "NaN", "-nan", "0", "000.000", "", "+", "-", ".",
        "e5", "1e", "1e+", "1.5.5", "1,5", " 1", "1 ", "infinit", "na", "1f", "0x1p3", "+-1",
        "1e5.5", ".e5", "-.", "infinityy", "１",
    ] {
        assert_eq!(check_float(s), s.parse::<f64>().is_ok(), "{:?}", s);
    }
}

#[test]
fn floats_keep_their_text() {
    match decode(&envelope("Float", text("-2.5e3"))).unwrap() {
        Val::Float { value } => {
            assert_eq!(value, "-2.5e3");
            assert_eq!(value.parse::<f64>().unwrap(), -2500.0);
        }
        _ => panic!("not a float"),
    }
    assert_eq!(error_of(&envelope("Float", text("abc"))), DecodeError::NumericParseError);
    assert_eq!(error_of(&envelope("Float", whole(1))), DecodeError::MalformedEnvelope);
}

#[test]
fn strings_are_compared_by_characters() {
    assert!(str_eq("", ""));
    assert!(str_eq("Node", "Node"));
    assert!(!str_eq("Node", "node"));
    assert!(!str_eq("Node", "Nodes"));
    assert!(str_eq("héllo", "héllo"));
    assert!(!str_eq("héllo", "hello"));
}

#[test]
fn strings_are_split_into_characters() {
    assert_eq!(to_chars(""), Vec::<char>::new());
    assert_eq!(to_chars("héllo"), vec!['h', 'é', 'l', 'l', 'o']);
}

#[test]
fn discriminators_are_matched_exactly() {
    assert_eq!(error_of(&envelope("boolean", Json::Bool(true))), DecodeError::UnknownType);
    assert_eq!(error_of(&envelope("Bool", Json::Bool(true))), DecodeError::UnknownType);
    assert_eq!(error_of(&envelope("Null", Json::Null)), DecodeError::UnknownType);
    assert_eq!(error_of(&envelope("", Json::Null)), DecodeError::UnknownType);
    assert_eq!(error_of(&envelope("Integer ", text("1"))), DecodeError::UnknownType);
}

#[test]
fn envelopes_need_both_fields() {
    assert_eq!(error_of(&Json::Null), DecodeError::MalformedEnvelope);
    assert_eq!(error_of(&text("Boolean")), DecodeError::MalformedEnvelope);
    assert_eq!(error_of(&object(vec![])), DecodeError::MalformedEnvelope);
    assert_eq!(error_of(&object(vec![("$type", text("Boolean"))])), DecodeError::MalformedEnvelope);
    assert_eq!(error_of(&object(vec![("_value", Json::Bool(true))])), DecodeError::MalformedEnvelope);
    assert_eq!(
        error_of(&object(vec![("$type", whole(1)), ("_value", Json::Bool(true))])),
        DecodeError::MalformedEnvelope
    );
    assert_eq!(error_of(&envelope("Boolean", text("true"))), DecodeError::MalformedEnvelope);
    assert_eq!(error_of(&envelope("String", Json::Null)), DecodeError::MalformedEnvelope);
    assert_eq!(error_of(&envelope("List", object(vec![]))), DecodeError::MalformedEnvelope);
    assert_eq!(error_of(&envelope("Map", Json::Array(vec![]))), DecodeError::MalformedEnvelope);
}

#[test]
fn envelopes_open_into_tag_and_payload() {
    let json = envelope("Boolean", Json::Bool(false));
    let (tag, payload) = open_envelope(&json).unwrap();
    assert_eq!(tag, "Boolean");
    assert!(matches!(payload, Json::Bool(false)));
}

#[test]
fn the_last_member_with_a_key_counts() {
    let members = vec![
        Member { key: "a".to_string(), value: whole(1) },
        Member { key: "b".to_string(), value: whole(2) },
        Member { key: "a".to_string(), value: whole(3) },
    ];
    assert!(matches!(find_member(&members, "a"), Some(Json::Number(JsonNumber::Integer(3)))));
    assert!(matches!(find_member(&members, "b"), Some(Json::Number(JsonNumber::Integer(2)))));
    assert!(find_member(&members, "c").is_none());
}

#[test]
fn byte_arrays_hold_bytes_only() {
    assert_eq!(decode_bytes(&vec![whole(0), whole(255), whole(17)]), Ok(vec![0u8, 255, 17]));
    assert_eq!(decode_bytes(&vec![]), Ok(vec![]));
    assert_eq!(decode_bytes(&vec![whole(1), whole(256)]), Err(DecodeError::ByteValueOutOfRange));
    assert_eq!(decode_bytes(&vec![whole(-1)]), Err(DecodeError::ByteValueOutOfRange));
    assert_eq!(decode_bytes(&vec![text("1")]), Err(DecodeError::ByteValueOutOfRange));
    assert_eq!(
        decode_bytes(&vec![Json::Number(JsonNumber::Real(1.5f64.to_bits()))]),
        Err(DecodeError::ByteValueOutOfRange)
    );
    assert_eq!(
        error_of(&envelope("ByteArray", Json::Array(vec![whole(300)]))),
        DecodeError::ByteValueOutOfRange
    );
    assert_eq!(error_of(&envelope("ByteArray", text("AQID"))), DecodeError::MalformedEnvelope);
}

#[test]
fn empty_containers_decode_to_empty_values() {
    match decode(&envelope("List", Json::Array(vec![]))).unwrap() {
        Val::List { value } => assert!(value.is_empty()),
        _ => panic!("not a list"),
    }
    match decode(&envelope("Map", object(vec![]))).unwrap() {
        Val::Mapping { value } => assert_eq!(value.len(), 0),
        _ => panic!("not a map"),
    }
}

#[test]
fn lists_keep_the_order_of_their_items() {
    let json = envelope(
        "List",
        Json::Array(vec![
            envelope("Integer", text("3")),
            envelope("String", text("x")),
            envelope("Integer", text("1")),
        ]),
    );
    match decode(&json).unwrap() {
        Val::List { value } => {
            assert_eq!(value.len(), 3);
            assert!(matches!(value[0], Val::Integer { value: 3 }));
            assert!(matches!(&value[1], Val::String { value } if value == "x"));
            assert!(matches!(value[2], Val::Integer { value: 1 }));
        }
        _ => panic!("not a list"),
    }
}

#[test]
fn a_bad_item_fails_the_whole_container() {
    let json = envelope(
        "List",
        Json::Array(vec![
            envelope("Integer", text("3")),
            envelope("Integer", text("x")),
            envelope("Whatever", Json::Null),
        ]),
    );
    assert_eq!(error_of(&json), DecodeError::NumericParseError);
    let json = envelope(
        "Map",
        object(vec![("a", envelope("Boolean", Json::Bool(true))), ("b", Json::Null)]),
    );
    assert_eq!(error_of(&json), DecodeError::MalformedEnvelope);
}

#[test]
fn duplicate_keys_keep_the_last_value() {
    let json = envelope(
        "Map",
        object(vec![
            ("k", envelope("Integer", text("1"))),
            ("j", envelope("Integer", text("2"))),
            ("k", envelope("Integer", text("3"))),
        ]),
    );
    match decode(&json).unwrap() {
        Val::Mapping { value } => {
            assert_eq!(value.len(), 2);
            assert!(matches!(value.get("k"), Some(Val::Integer { value: 3 })));
            assert!(matches!(value.get("j"), Some(Val::Integer { value: 2 })));
            assert!(value.get("i").is_none());
        }
        _ => panic!("not a map"),
    }
}

#[test]
fn maps_insert_and_replace() {
    let map = ValMap::new();
    assert_eq!(map.len(), 0);
    assert!(map.get("a").is_none());
    let map = map.insert("a".to_string(), Val::Integer { value: 1 });
    let map = map.insert("b".to_string(), Val::Boolean { value: true });
    assert_eq!(map.len(), 2);
    let map = map.insert("a".to_string(), Val::Integer { value: 5 });
    assert_eq!(map.len(), 2);
    assert!(matches!(map.get("a"), Some(Val::Integer { value: 5 })));
    assert!(matches!(map.get("b"), Some(Val::Boolean { value: true })));
}

#[test]
fn nesting_is_reproduced_level_by_level() {
    for depth in [0usize, 1, 2, 5, 40, DEFAULT_DEPTH_LIMIT - 1] {
        let value = decode(&nested_lists(depth)).unwrap();
        assert_eq!(list_depth(&value), depth);
    }
}

#[test]
fn nesting_beyond_the_limit_is_refused() {
    assert_eq!(error_of(&nested_lists(DEFAULT_DEPTH_LIMIT)), DecodeError::RecursionLimitExceeded);
    assert_eq!(
        decode_with_limit(&nested_lists(3), 3).unwrap_err(),
        DecodeError::RecursionLimitExceeded
    );
    assert_eq!(list_depth(&decode_with_limit(&nested_lists(3), 4).unwrap()), 3);
    assert_eq!(
        decode_with_limit(&envelope("Boolean", Json::Bool(true)), 0).unwrap_err(),
        DecodeError::RecursionLimitExceeded
    );
    assert!(decode_with_limit(&envelope("Boolean", Json::Bool(true)), 1).is_ok());
}

#[test]
fn dates_decode_to_their_fields() {
    assert_eq!(decode_date("2012-01-31"), Ok(Date { year: 2012, month: 1, day: 31 }));
    assert_eq!(decode_date("2012-02-30"), Err(DecodeError::TemporalParseError));
    assert_eq!(decode_date("2012-01-31T00:00:00"), Err(DecodeError::TemporalParseError));
    assert_eq!(decode_date("yesterday"), Err(DecodeError::TemporalParseError));
    assert_eq!(decode_date(""), Err(DecodeError::TemporalParseError));
    match decode(&envelope("Date", text("1999-12-31"))).unwrap() {
        Val::Date { value } => assert_eq!(value, Date { year: 1999, month: 12, day: 31 }),
        _ => panic!("not a date"),
    }
}

#[test]
fn times_decode_to_their_fields() {
    assert_eq!(decode_time("12:34:56"), Ok(Time { hour: 12, minute: 34, second: 56, nanosecond: 0 }));
    assert_eq!(decode_time("24:00:00"), Err(DecodeError::TemporalParseError));
    assert_eq!(decode_time("12:34"), Err(DecodeError::TemporalParseError));
    match decode(&envelope("Time", text("01:02:03"))).unwrap() {
        Val::Time { value } => {
            assert_eq!(value.hour(), 1);
            assert_eq!(value, Time { hour: 1, minute: 2, second: 3, nanosecond: 0 });
        }
        _ => panic!("not a time"),
    }
}

#[test]
fn date_times_decode_to_their_fields() {
    let expected = DateTime {
        date: Date { year: 2012, month: 1, day: 1 },
        time: Time { hour: 12, minute: 0, second: 0, nanosecond: 0 },
    };
    assert_eq!(decode_date_time("2012-01-01T12:00:00"), Ok(expected));
    assert_eq!(decode_date_time("2012-01-01 12:00:00"), Err(DecodeError::TemporalParseError));
    assert_eq!(decode_date_time("2012-01-01T12:00:00[+02:00]"), Err(DecodeError::TemporalParseError));
    assert_eq!(error_of(&envelope("DateTime", text("2012-13-01T12:00:00"))), DecodeError::TemporalParseError);
}

#[test]
fn zoned_date_times_keep_their_offset() {
    let expected = ZoneDateTime {
        local: DateTime {
            date: Date { year: 2012, month: 1, day: 1 },
            time: Time { hour: 12, minute: 0, second: 0, nanosecond: 0 },
        },
        offset_seconds: 7200,
    };
    assert_eq!(decode_zone_date_time("2012-01-01T12:00:00[+02:00]"), Ok(expected));
    let west = decode_zone_date_time("2012-01-01T23:30:00[-05:30]").unwrap();
    assert_eq!(west.hour(), 23);
    assert_eq!(west.local.date.day, 1);
    assert_eq!(west.offset_seconds, -19800);
    assert_eq!(decode_zone_date_time("2012-01-01T12:00:00"), Err(DecodeError::TemporalParseError));
    assert_eq!(decode_zone_date_time("2012-01-01T12:00:00+02:00"), Err(DecodeError::TemporalParseError));
    assert_eq!(error_of(&envelope("ZoneDateTime", whole(0))), DecodeError::MalformedEnvelope);
}

#[test]
fn parsed_temporals_become_results() {
    assert_eq!(temporal_from_parsed(Some(3u8)), Ok(3u8));
    assert_eq!(temporal_from_parsed::<u8>(None), Err(DecodeError::TemporalParseError));
}

#[test]
fn durations_decode_to_months_days_and_seconds() {
    assert_eq!(
        parse_duration("P14DT16H12M"),
        Some(Duration { months: 0, days: 14, seconds: 16 * 3600 + 12 * 60 })
    );
    assert_eq!(
        parse_duration("P1Y2M3W4DT5H6M7S"),
        Some(Duration { months: 14, days: 25, seconds: 5 * 3600 + 6 * 60 + 7 })
    );
    assert_eq!(parse_duration("PT0S"), Some(Duration { months: 0, days: 0, seconds: 0 }));
    assert_eq!(parse_duration("P2M"), Some(Duration { months: 2, days: 0, seconds: 0 }));
    assert_eq!(parse_duration("PT2M"), Some(Duration { months: 0, days: 0, seconds: 120 }));
    assert_eq!(
        parse_duration("P18446744073709551615D"),
        Some(Duration { months: 0, days: u64::MAX, seconds: 0 })
    );
    match decode(&envelope("Duration", text("P14DT16H12M"))).unwrap() {
        Val::Duration { value } => {
            assert_eq!(value, Duration { months: 0, days: 14, seconds: 58320 })
        }
        _ => panic!("not a duration"),
    }
}

#[test]
fn malformed_durations_are_rejected() {
    for bad in [
        "", "P", "PT", "PT12", "P12X", "1D", "p1d", "P1DT", "PT1D", "P1D2Y", "P1S", "P-1D", "PT1.5S", "P1D ",
        " P1D", "PD", "P1DT1H1H", "P18446744073709551616D", "P1537228672809129302Y",
        "PT5124095576030432H", "P1D1D", "PT1M1H",
    ] {
        assert_eq!(decode_duration(bad), Err(DecodeError::TemporalParseError), "{:?}", bad);
    }
    assert_eq!(error_of(&envelope("Duration", text("14 days"))), DecodeError::TemporalParseError);
}

#[test]
fn labels_must_be_strings() {
    assert_eq!(
        decode_labels(&vec![text("Person"), text("Person"), text("Actor")]),
        Ok(vec!["Person".to_string(), "Person".to_string(), "Actor".to_string()])
    );
    assert_eq!(decode_labels(&vec![text("Person"), whole(1)]), Err(DecodeError::MalformedEnvelope));
}

#[test]
fn nodes_need_all_three_fields() {
    let without_id = envelope(
        "Node",
        object(vec![("_labels", Json::Array(vec![])), ("_properties", object(vec![]))]),
    );
    assert_eq!(error_of(&without_id), DecodeError::MalformedEnvelope);
    let without_labels =
        envelope("Node", object(vec![("_element_id", text("1")), ("_properties", object(vec![]))]));
    assert_eq!(error_of(&without_labels), DecodeError::MalformedEnvelope);
    let without_properties = envelope(
        "Node",
        object(vec![("_element_id", text("1")), ("_labels", Json::Array(vec![]))]),
    );
    assert_eq!(error_of(&without_properties), DecodeError::MalformedEnvelope);
    assert_eq!(error_of(&envelope("Node", Json::Array(vec![]))), DecodeError::MalformedEnvelope);
    let bad_property = envelope(
        "Node",
        object(vec![
            ("_element_id", text("1")),
            ("_labels", Json::Array(vec![])),
            ("_properties", object(vec![("age", envelope("Integer", text("old")))])),
        ]),
    );
    assert_eq!(error_of(&bad_property), DecodeError::NumericParseError);
}

#[test]
fn relationships_need_all_five_fields() {
    let names =
        ["_element_id", "_start_node_element_id", "_end_node_element_id", "_type", "_properties"];
    for missing in names {
        let mut members = Vec::new();
        for name in names {
            if name != missing {
                let value = if name == "_properties" { object(vec![]) } else { text("x") };
                members.push((name, value));
            }
        }
        assert_eq!(
            error_of(&envelope("Relationship", object(members))),
            DecodeError::MalformedEnvelope,
            "{}",
            missing
        );
    }
    assert!(decode(&relationship("r", "a", "b")).is_ok());
}

#[test]
fn paths_of_even_length_are_refused() {
    assert_eq!(error_of(&envelope("Path", Json::Array(vec![]))), DecodeError::InvalidPathShape);
    let two = vec![node("a", "A"), relationship("r", "a", "b")];
    assert_eq!(error_of(&envelope("Path", Json::Array(two))), DecodeError::InvalidPathShape);
    let four = vec![
        node("a", "A"),
        relationship("r", "a", "b"),
        node("b", "B"),
        relationship("s", "b", "c"),
    ];
    assert_eq!(error_of(&envelope("Path", Json::Array(four))), DecodeError::InvalidPathShape);
    assert_eq!(error_of(&envelope("Path", object(vec![]))), DecodeError::MalformedEnvelope);
}

#[test]
fn paths_must_alternate() {
    let three_nodes = vec![node("a", "A"), node("b", "B"), node("c", "C")];
    assert_eq!(error_of(&envelope("Path", Json::Array(three_nodes))), DecodeError::InvalidPathShape);
    let starts_with_relationship = vec![relationship("r", "a", "b")];
    assert_eq!(
        error_of(&envelope("Path", Json::Array(starts_with_relationship))),
        DecodeError::InvalidPathShape
    );
    let other_kind = vec![envelope("Integer", text("1"))];
    assert_eq!(error_of(&envelope("Path", Json::Array(other_kind))), DecodeError::InvalidPathShape);
    assert_eq!(error_of(&envelope("Path", Json::Array(vec![Json::Null]))), DecodeError::MalformedEnvelope);
}

#[test]
fn paths_split_into_nodes_and_relationships() {
    let single = decode_path(&vec![node("a", "A")], 4).unwrap();
    assert_eq!(single.nodes.len(), 1);
    assert_eq!(single.relationships.len(), 0);
    let five = vec![
        node("a", "A"),
        relationship("r", "a", "b"),
        node("b", "B"),
        relationship("s", "b", "c"),
        node("c", "C"),
    ];
    match decode(&envelope("Path", Json::Array(five))).unwrap() {
        Val::Path { value } => {
            assert_eq!(value.nodes.len(), 3);
            assert_eq!(value.relationships.len(), 2);
            let ids: Vec<&str> = value.nodes.iter().map(|n| n.element_id.as_str()).collect();
            assert_eq!(ids, vec!["a", "b", "c"]);
            let ids: Vec<&str> = value.relationships.iter().map(|r| r.element_id.as_str()).collect();
            assert_eq!(ids, vec!["r", "s"]);
            assert_eq!(value.relationships[1].start_node_element_id, "b");
            assert_eq!(value.relationships[1].end_node_element_id, "c");
        }
        _ => panic!("not a path"),
    }
}

#[test]
fn copies_equal_what_they_copy() {
    let json = envelope(
        "Path",
        Json::Array(vec![node("a", "A"), relationship("r", "a", "b"), node("b", "B")]),
    );
    let value = decode(&json).unwrap();
    let copy = value.clone();
    assert_eq!(format!("{:?}", value), format!("{:?}", copy));
    let json = envelope(
        "Map",
        object(vec![
            ("bytes", envelope("ByteArray", Json::Array(vec![whole(1), whole(2)]))),
            ("list", envelope("List", Json::Array(vec![envelope("Float", text("1e3"))]))),
            ("when", envelope("Time", text("10:11:12"))),
        ]),
    );
    let value = decode(&json).unwrap();
    assert_eq!(format!("{:?}", value), format!("{:?}", value.clone()));
}

#[test]
fn connected_paths_are_told_from_others() {
    let good = vec![node("a", "A"), relationship("r", "a", "b"), node("b", "B")];
    assert!(decode_path(&good, 4).unwrap().is_connected());
    let backwards = vec![node("a", "A"), relationship("r", "b", "a"), node("b", "B")];
    assert!(decode_path(&backwards, 4).unwrap().is_connected());
    let loose = vec![node("a", "A"), relationship("r", "a", "c"), node("b", "B")];
    assert!(!decode_path(&loose, 4).unwrap().is_connected());
    let single = decode_path(&vec![node("a", "A")], 4).unwrap();
    assert!(single.is_connected());
    let mut broken = decode_path(&good, 4).unwrap();
    broken.nodes.pop();
    assert!(!broken.is_connected());
}

#[test]
fn values_are_of_the_kind_their_envelope_names() {
    let cases = vec![
        envelope("Boolean", Json::Bool(true)),
        envelope("Integer", text("1")),
        envelope("Float", text("1.5")),
        envelope("String", text("s")),
        envelope("ByteArray", Json::Array(vec![])),
        envelope("Map", object(vec![])),
        envelope("List", Json::Array(vec![])),
        envelope("ZoneDateTime", text("2012-01-01T12:00:00[+02:00]")),
        envelope("DateTime", text("2012-01-01T12:00:00")),
        envelope("Time", text("12:00:00")),
        envelope("Date", text("2012-01-01")),
        envelope("Duration", text("PT1S")),
        node("a", "A"),
        relationship("r", "a", "b"),
        envelope("Path", Json::Array(vec![node("a", "A")])),
    ];
    let names = [
        "Boolean", "Integer", "Float", "String", "ByteArray", "Map", "List", "ZoneDateTime",
        "DateTime", "Time", "Date", "Duration", "Node", "Relationship", "Path",
    ];
    assert_eq!(cases.len(), names.len());
    for (json, name) in cases.iter().zip(names) {
        assert_eq!(decode(json).unwrap().kind(), name);
    }
}

#[test]
fn failures_are_located() {
    let json = envelope(
        "List",
        Json::Array(vec![
            envelope("Integer", text("1")),
            envelope(
                "Map",
                object(vec![
                    ("fine", envelope("Boolean", Json::Bool(true))),
                    ("bad", envelope("List", Json::Array(vec![envelope("Date", text("soon"))]))),
                    ("worse", envelope("Nothing", Json::Null)),
                ]),
            ),
            envelope("Integer", text("x")),
        ]),
    );
    assert_eq!(
        decode_located(&json, DEFAULT_DEPTH_LIMIT).unwrap_err(),
        Failure {
            error: DecodeError::TemporalParseError,
            kind: Some("Date".to_string()),
            path: vec![Step::Index(1), Step::Key("bad".to_string()), Step::Index(0)],
        }
    );
    let json = envelope(
        "Path",
        Json::Array(vec![
            node("a", "A"),
            relationship("r", "a", "b"),
            envelope(
                "Node",
                object(vec![
                    ("_element_id", text("b")),
                    ("_labels", Json::Array(vec![])),
                    ("_properties", object(vec![("age", envelope("Integer", text("old")))])),
                ]),
            ),
        ]),
    );
    assert_eq!(
        decode_located(&json, DEFAULT_DEPTH_LIMIT).unwrap_err(),
        Failure {
            error: DecodeError::NumericParseError,
            kind: Some("Integer".to_string()),
            path: vec![
                Step::Index(2),
                Step::Key("_properties".to_string()),
                Step::Key("age".to_string()),
            ],
        }
    );
    let three_nodes =
        envelope("Path", Json::Array(vec![node("a", "A"), node("b", "B"), node("c", "C")]));
    assert_eq!(
        decode_located(&three_nodes, DEFAULT_DEPTH_LIMIT).unwrap_err(),
        Failure {
            error: DecodeError::InvalidPathShape,
            kind: Some("Node".to_string()),
            path: vec![Step::Index(1)],
        }
    );
    let even = envelope("Path", Json::Array(vec![node("a", "A"), relationship("r", "a", "b")]));
    assert_eq!(
        decode_located(&even, DEFAULT_DEPTH_LIMIT).unwrap_err(),
        Failure { error: DecodeError::InvalidPathShape, kind: Some("Path".to_string()), path: vec![] }
    );
    assert_eq!(
        decode_located(&nested_lists(3), 2).unwrap_err(),
        Failure {
            error: DecodeError::RecursionLimitExceeded,
            kind: Some("List".to_string()),
            path: vec![Step::Index(0), Step::Index(0)],
        }
    );
    assert_eq!(
        decode_located(&Json::Null, 5).unwrap_err(),
        Failure { error: DecodeError::MalformedEnvelope, kind: None, path: vec![] }
    );
    let unknown = envelope("List", Json::Array(vec![envelope("Mystery", Json::Null)]));
    assert_eq!(
        decode_located(&unknown, 5).unwrap_err(),
        Failure {
            error: DecodeError::UnknownType,
            kind: Some("Mystery".to_string()),
            path: vec![Step::Index(0)],
        }
    );
    let bad_labels = envelope(
        "Node",
        object(vec![
            ("_element_id", text("b")),
            ("_labels", Json::Array(vec![whole(1)])),
            ("_properties", object(vec![("age", envelope("Integer", text("old")))])),
        ]),
    );
    assert_eq!(
        decode_located(&bad_labels, 5).unwrap_err(),
        Failure { error: DecodeError::MalformedEnvelope, kind: Some("Node".to_string()), path: vec![] }
    );
}

#[test]
fn values_that_decode_have_nothing_to_locate() {
    let json = nested_lists(4);
    assert!(decode_located(&json, DEFAULT_DEPTH_LIMIT).is_ok());
    assert_eq!(locate(&json, DEFAULT_DEPTH_LIMIT), (vec![], Some("List".to_string())));
    assert_eq!(locate(&node("a", "A"), DEFAULT_DEPTH_LIMIT), (vec![], Some("Node".to_string())));
}

#[test]
fn errors_have_names() {
    assert_eq!(DecodeError::MalformedEnvelope.name(), "MalformedEnvelope");
    assert_eq!(DecodeError::UnknownType.name(), "UnknownType");
    assert_eq!(DecodeError::NumericParseError.name(), "NumericParseError");
    assert_eq!(DecodeError::ByteValueOutOfRange.name(), "ByteValueOutOfRange");
    assert_eq!(DecodeError::TemporalParseError.name(), "TemporalParseError");
    assert_eq!(DecodeError::InvalidPathShape.name(), "InvalidPathShape");
    assert_eq!(DecodeError::RecursionLimitExceeded.name(), "RecursionLimitExceeded");
}

#[test]
fn temporal_payloads_must_have_the_fixed_shape() {
    assert_eq!(decode_date("2012-1-1"), Err(DecodeError::TemporalParseError));
    assert_eq!(decode_date("+2012-01-01"), Err(DecodeError::TemporalParseError));
    assert_eq!(decode_date("2012-01-01 "), Err(DecodeError::TemporalParseError));
    assert_eq!(decode_date("2012/01/01"), Err(DecodeError::TemporalParseError));
    assert_eq!(decode_time("1:02:03"), Err(DecodeError::TemporalParseError));
    assert_eq!(decode_time("01:02:03.5"), Err(DecodeError::TemporalParseError));
    assert_eq!(decode_date_time("2012-01-01t12:00:00"), Err(DecodeError::TemporalParseError));
    assert_eq!(
        decode_zone_date_time("2012-01-01T12:00:00[02:00]"),
        Err(DecodeError::TemporalParseError)
    );
    assert_eq!(
        decode_zone_date_time("2012-01-01T12:00:00[+0200]"),
        Err(DecodeError::TemporalParseError)
    );
    assert_eq!(
        decode_zone_date_time("2012-01-01T12:00:00[+02:00] "),
        Err(DecodeError::TemporalParseError)
    );
    assert!(check_shape("1999-12-31", "0000-00-00"));
    assert!(check_shape("[-]", "[+]"));
    assert!(!check_shape("[1]", "[+]"));
    assert!(!check_shape("1999-12-3", "0000-00-00"));
    assert!(!check_shape("1999-12-3x", "0000-00-00"));
}

#[test]
fn map_entries_can_be_walked() {
    let map = ValMap::new()
        .insert("a".to_string(), Val::Integer { value: 1 })
        .insert("b".to_string(), Val::Integer { value: 2 })
        .insert("a".to_string(), Val::Integer { value: 3 });
    let keys: Vec<&str> = map.entries().iter().map(|e| e.key.as_str()).collect();
    assert_eq!(keys, vec!["a", "b"]);
    assert!(matches!(map.entries()[0].value, Val::Integer { value: 3 }));
}

#[test]
fn decoding_twice_gives_equal_values() {
    let json = envelope(
        "List",
        Json::Array(vec![
            node("a", "A"),
            envelope("Map", object(vec![("k", envelope("Float", text("1.5")))])),
            envelope("ZoneDateTime", text("2012-01-01T12:00:00[+02:00]")),
            envelope("Path", Json::Array(vec![node("a", "A")])),
        ]),
    );
    let first = format!("{:?}", decode(&json));
    let second = format!("{:?}", decode(&json));
    assert_eq!(first, second);
    let bad = envelope("List", Json::Array(vec![envelope("Date", text("today"))]));
    assert_eq!(decode(&bad).unwrap_err(), decode(&bad).unwrap_err());
}
