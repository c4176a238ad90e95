use vstd::prelude::*;
use crate::error::DecodeError;
use crate::json::{find_member, member_value, Json, JsonNumber, Member};
use crate::scalar::{check_float, decode_integer, float_result, integer_of_text, integer_result};
use crate::temporal::{
    chrono_date, chrono_date_time, chrono_time, chrono_zone_date_time, date_format, date_shape,
    date_time_format, date_time_shape, decode_date, decode_date_time, decode_duration,
    decode_time, decode_zone_date_time, duration_of_text, shaped_result, temporal_result,
    time_format, time_shape, zone_date_time_format, zone_date_time_shape,
};
use crate::text::str_eq;
use crate::value::{
    node_view, nodes_view, pairs_to_map, path_view, relationship_view,
    relationships_view, strings_view, val_view, vals_view, Node, NodeView, Path, PathView,
    Relationship, RelationshipView, Val, ValMap, ValView,
};

verus! {

/// How many envelopes may be nested inside one another when no other limit
/// is given.
pub const DEFAULT_DEPTH_LIMIT: usize = 128;

/// The model of a decoding result: the model of the value, or the error.
pub open spec fn outcome_view(r: Result<Val, DecodeError>) -> Result<ValView, DecodeError> {
    match r {
        Ok(v) => Ok(val_view(v)),
        Err(e) => Err(e),
    }
}

/// The characters of a JSON string; `None` for any other JSON value.
pub open spec fn text_of(json: Json) -> Option<Seq<char>> {
    match json {
        Json::String(s) => Some(s@),
        _ => None,
    }
}

/// The items of a JSON array; `None` for any other JSON value.
pub open spec fn items_of(json: Json) -> Option<Seq<Json>> {
    match json {
        Json::Array(items) => Some(items@),
        _ => None,
    }
}

/// The members of a JSON object; `None` for any other JSON value.
pub open spec fn members_of(json: Json) -> Option<Seq<Member>> {
    match json {
        Json::Object(members) => Some(members@),
        _ => None,
    }
}

/// The string that an object's members give to `key`, if they give one.
pub open spec fn text_field(members: Seq<Member>, key: Seq<char>) -> Option<Seq<char>> {
    match member_value(members, key) {
        Some(json) => text_of(json),
        None => None,
    }
}

/// The array that an object's members give to `key`, if they give one.
pub open spec fn items_field(members: Seq<Member>, key: Seq<char>) -> Option<Seq<Json>> {
    match member_value(members, key) {
        Some(json) => items_of(json),
        None => None,
    }
}

/// The object that an object's members give to `key`, if they give one.
pub open spec fn members_field(members: Seq<Member>, key: Seq<char>) -> Option<Seq<Member>> {
    match member_value(members, key) {
        Some(json) => members_of(json),
        None => None,
    }
}

/// The discriminator and the payload of an envelope: a JSON object whose
/// `$type` is a string and which has a `_value`.
pub open spec fn envelope_of(json: Json) -> Result<(Seq<char>, Json), DecodeError> {
    match members_of(json) {
        Some(members) => match (text_field(members, "$type"@), member_value(members, "_value"@)) {
            (Some(tag), Some(payload)) => Ok((tag, payload)),
            _ => Err(DecodeError::MalformedEnvelope),
        },
        None => Err(DecodeError::MalformedEnvelope),
    }
}

/// Whether the payload of this kind of value is a JSON string.
pub open spec fn is_text_kind(tag: Seq<char>) -> bool {
    tag == "Integer"@ || tag == "Float"@ || tag == "String"@ || tag == "ZoneDateTime"@ || tag
        == "DateTime"@ || tag == "Time"@ || tag == "Date"@ || tag == "Duration"@
}

/// Lifts a result to a value's model.
pub open spec fn lift<T>(r: Result<T, DecodeError>, wrap: spec_fn(T) -> ValView) -> Result<
    ValView,
    DecodeError,
> {
    match r {
        Ok(t) => Ok(wrap(t)),
        Err(e) => Err(e),
    }
}

/// What the text of a payload decodes to, for the kinds whose payload is a
/// JSON string.
pub open spec fn decode_text_spec(tag: Seq<char>, text: Seq<char>) -> Result<ValView, DecodeError>
    recommends
        is_text_kind(tag),
{
    if tag == "Integer"@ {
        lift(integer_result(integer_of_text(text)), |n: i64| ValView::Integer(n))
    } else if tag == "Float"@ {
        lift(float_result(text), |s: Seq<char>| ValView::Float(s))
    } else if tag == "String"@ {
        Ok(ValView::String(text))
    } else if tag == "ZoneDateTime"@ {
        lift(
            shaped_result(text, zone_date_time_shape(), chrono_zone_date_time(text, zone_date_time_format())),
            |t: crate::temporal::ZoneDateTime| ValView::ZoneDateTime(t),
        )
    } else if tag == "DateTime"@ {
        lift(
            shaped_result(text, date_time_shape(), chrono_date_time(text, date_time_format())),
            |t: crate::temporal::DateTime| ValView::DateTime(t),
        )
    } else if tag == "Time"@ {
        lift(
            shaped_result(text, time_shape(), chrono_time(text, time_format())),
            |t: crate::temporal::Time| ValView::Time(t),
        )
    } else if tag == "Date"@ {
        lift(
            shaped_result(text, date_shape(), chrono_date(text, date_format())),
            |t: crate::temporal::Date| ValView::Date(t),
        )
    } else {
        lift(
            temporal_result(duration_of_text(text)),
            |t: crate::temporal::Duration| ValView::Duration(t),
        )
    }
}

/// The byte that a JSON value stands for: an integer from 0 to 255.
pub open spec fn byte_of(json: Json) -> Option<u8> {
    match json {
        Json::Number(JsonNumber::Integer(n)) => if 0 <= n <= 255 {
            Some(n as u8)
        } else {
            None
        },
        _ => None,
    }
}

/// The bytes of a ByteArray payload: every item must stand for a byte.
pub open spec fn bytes_spec(items: Seq<Json>) -> Result<Seq<u8>, DecodeError> {
    if forall|i: int| 0 <= i < items.len() ==> (#[trigger] byte_of(items[i])).is_some() {
        Ok(Seq::new(items.len(), |i: int| byte_of(items[i]).unwrap()))
    } else {
        Err(DecodeError::ByteValueOutOfRange)
    }
}

/// The labels of a node: every item must be a JSON string.
pub open spec fn labels_spec(items: Seq<Json>) -> Result<Seq<Seq<char>>, DecodeError> {
    if forall|i: int| 0 <= i < items.len() ==> (#[trigger] text_of(items[i])).is_some() {
        Ok(Seq::new(items.len(), |i: int| text_of(items[i]).unwrap()))
    } else {
        Err(DecodeError::MalformedEnvelope)
    }
}

/// What an envelope decodes to when at most `limit` envelopes may be nested
/// inside one another, this one counted.
pub open spec fn decode_spec(json: Json, limit: nat) -> Result<ValView, DecodeError>
    decreases limit, 0nat, 0nat,
{
    if limit == 0 {
        Err(DecodeError::RecursionLimitExceeded)
    } else {
        match envelope_of(json) {
            Ok((tag, payload)) => decode_payload_spec(tag, payload, (limit - 1) as nat),
            Err(e) => Err(e),
        }
    }
}

/// What a payload decodes to under the discriminator `tag`, when at most
/// `depth` envelopes may be nested inside it.
pub open spec fn decode_payload_spec(tag: Seq<char>, payload: Json, depth: nat) -> Result<
    ValView,
    DecodeError,
>
    decreases depth, 3nat, 0nat,
{
    if is_text_kind(tag) {
        match text_of(payload) {
            Some(text) => decode_text_spec(tag, text),
            None => Err(DecodeError::MalformedEnvelope),
        }
    } else if tag == "Boolean"@ {
        match payload {
            Json::Bool(b) => Ok(ValView::Boolean(b)),
            _ => Err(DecodeError::MalformedEnvelope),
        }
    } else if tag == "ByteArray"@ {
        match items_of(payload) {
            Some(items) => lift(bytes_spec(items), |b: Seq<u8>| ValView::ByteArray(b)),
            None => Err(DecodeError::MalformedEnvelope),
        }
    } else if tag == "Map"@ {
        match members_of(payload) {
            Some(members) => match decode_members_spec(members, 0, depth) {
                Ok(pairs) => Ok(ValView::Mapping(pairs_to_map(pairs))),
                Err(e) => Err(e),
            },
            None => Err(DecodeError::MalformedEnvelope),
        }
    } else if tag == "List"@ {
        match items_of(payload) {
            Some(items) => match decode_items_spec(items, 0, depth) {
                Ok(vals) => Ok(ValView::List(vals)),
                Err(e) => Err(e),
            },
            None => Err(DecodeError::MalformedEnvelope),
        }
    } else if tag == "Node"@ {
        match decode_node_spec(payload, depth) {
            Ok(node) => Ok(ValView::Node(node)),
            Err(e) => Err(e),
        }
    } else if tag == "Relationship"@ {
        match decode_relationship_spec(payload, depth) {
            Ok(rel) => Ok(ValView::Relationship(rel)),
            Err(e) => Err(e),
        }
    } else if tag == "Path"@ {
        match items_of(payload) {
            Some(items) => match decode_path_spec(items, depth) {
                Ok(path) => Ok(ValView::Path(path)),
                Err(e) => Err(e),
            },
            None => Err(DecodeError::MalformedEnvelope),
        }
    } else {
        Err(DecodeError::UnknownType)
    }
}

/// What the items of a List payload decode to, from index `from` on: each
/// item is an envelope, and the first one that fails gives the error.
pub open spec fn decode_items_spec(items: Seq<Json>, from: nat, depth: nat) -> Result<
    Seq<ValView>,
    DecodeError,
>
    decreases depth, 1nat, items.len() - from,
{
    if from >= items.len() {
        Ok(Seq::empty())
    } else {
        match decode_spec(items[from as int], depth) {
            Ok(v) => match decode_items_spec(items, from + 1, depth) {
                Ok(rest) => Ok(seq![v] + rest),
                Err(e) => Err(e),
            },
            Err(e) => Err(e),
        }
    }
}

/// What the members of a Map payload decode to, from index `from` on: each
/// value is an envelope, and the first one that fails gives the error.
pub open spec fn decode_members_spec(members: Seq<Member>, from: nat, depth: nat) -> Result<
    Seq<(Seq<char>, ValView)>,
    DecodeError,
>
    decreases depth, 1nat, members.len() - from,
{
    if from >= members.len() {
        Ok(Seq::empty())
    } else {
        match decode_spec(members[from as int].value, depth) {
            Ok(v) => match decode_members_spec(members, from + 1, depth) {
                Ok(rest) => Ok(seq![(members[from as int].key@, v)] + rest),
                Err(e) => Err(e),
            },
            Err(e) => Err(e),
        }
    }
}

/// What the payload of a Node decodes to: an object with the labels, the
/// properties and the element identifier.
pub open spec fn decode_node_spec(payload: Json, depth: nat) -> Result<NodeView, DecodeError>
    decreases depth, 2nat, 0nat,
{
    match members_of(payload) {
        Some(members) => match (
            items_field(members, "_labels"@),
            members_field(members, "_properties"@),
            text_field(members, "_element_id"@),
        ) {
            (Some(labels), Some(properties), Some(element_id)) => match labels_spec(labels) {
                Ok(labels) => match decode_members_spec(properties, 0, depth) {
                    Ok(pairs) => Ok(
                        NodeView { labels, properties: pairs_to_map(pairs), element_id },
                    ),
                    Err(e) => Err(e),
                },
                Err(e) => Err(e),
            },
            _ => Err(DecodeError::MalformedEnvelope),
        },
        None => Err(DecodeError::MalformedEnvelope),
    }
}

/// What the payload of a Relationship decodes to: an object with the type
/// name, the properties and the three element identifiers.
pub open spec fn decode_relationship_spec(payload: Json, depth: nat) -> Result<
    RelationshipView,
    DecodeError,
>
    decreases depth, 2nat, 0nat,
{
    match members_of(payload) {
        Some(members) => match (
            text_field(members, "_type"@),
            members_field(members, "_properties"@),
            text_field(members, "_element_id"@),
            text_field(members, "_start_node_element_id"@),
            text_field(members, "_end_node_element_id"@),
        ) {
            (
                Some(type_),
                Some(properties),
                Some(element_id),
                Some(start_node_element_id),
                Some(end_node_element_id),
            ) => match decode_members_spec(properties, 0, depth) {
                Ok(pairs) => Ok(
                    RelationshipView {
                        type_,
                        properties: pairs_to_map(pairs),
                        element_id,
                        start_node_element_id,
                        end_node_element_id,
                    },
                ),
                Err(e) => Err(e),
            },
            _ => Err(DecodeError::MalformedEnvelope),
        },
        None => Err(DecodeError::MalformedEnvelope),
    }
}

/// The payload of the path element `json`, which must be an envelope with
/// the discriminator `tag`.
pub open spec fn path_element_spec(json: Json, tag: Seq<char>) -> Result<Json, DecodeError> {
    match envelope_of(json) {
        Ok((found, payload)) => if found == tag {
            Ok(payload)
        } else {
            Err(DecodeError::InvalidPathShape)
        },
        Err(e) => Err(e),
    }
}

/// The node that the path element `json` decodes to.
pub open spec fn decode_path_node_spec(json: Json, limit: nat) -> Result<NodeView, DecodeError>
    decreases limit, 0nat, 0nat,
{
    if limit == 0 {
        Err(DecodeError::RecursionLimitExceeded)
    } else {
        match path_element_spec(json, "Node"@) {
            Ok(payload) => decode_node_spec(payload, (limit - 1) as nat),
            Err(e) => Err(e),
        }
    }
}

/// The relationship that the path element `json` decodes to.
pub open spec fn decode_path_relationship_spec(json: Json, limit: nat) -> Result<
    RelationshipView,
    DecodeError,
>
    decreases limit, 0nat, 0nat,
{
    if limit == 0 {
        Err(DecodeError::RecursionLimitExceeded)
    } else {
        match path_element_spec(json, "Relationship"@) {
            Ok(payload) => decode_relationship_spec(payload, (limit - 1) as nat),
            Err(e) => Err(e),
        }
    }
}

/// What the elements of a Path payload decode to, from index `from` on:
/// the elements at even places are nodes, those at odd places
/// relationships, and the first one that fails gives the error.
pub open spec fn decode_path_from_spec(items: Seq<Json>, from: nat, depth: nat) -> Result<
    PathView,
    DecodeError,
>
    decreases depth, 1nat, items.len() - from,
{
    if from >= items.len() {
        Ok(PathView { nodes: Seq::empty(), relationships: Seq::empty() })
    } else if from % 2 == 0 {
        match decode_path_node_spec(items[from as int], depth) {
            Ok(node) => match decode_path_from_spec(items, from + 1, depth) {
                Ok(rest) => Ok(
                    PathView { nodes: seq![node] + rest.nodes, relationships: rest.relationships },
                ),
                Err(e) => Err(e),
            },
            Err(e) => Err(e),
        }
    } else {
        match decode_path_relationship_spec(items[from as int], depth) {
            Ok(rel) => match decode_path_from_spec(items, from + 1, depth) {
                Ok(rest) => Ok(
                    PathView { nodes: rest.nodes, relationships: seq![rel] + rest.relationships },
                ),
                Err(e) => Err(e),
            },
            Err(e) => Err(e),
        }
    }
}

/// What a Path payload decodes to: the number of elements must be odd.
pub open spec fn decode_path_spec(items: Seq<Json>, depth: nat) -> Result<PathView, DecodeError>
    decreases depth, 2nat, 0nat,
{
    if items.len() % 2 == 0 {
        Err(DecodeError::InvalidPathShape)
    } else {
        decode_path_from_spec(items, 0, depth)
    }
}

/// The text of a JSON string.
pub(crate) fn json_text<'a>(json: &'a Json) -> (r: Option<&'a str>)
    ensures
        match r {
            Some(s) => text_of(*json) == Some(s@),
            None => text_of(*json).is_none(),
        },
{
    match json {
        Json::String(s) => Some(s.as_str()),
        _ => None,
    }
}

/// The items of a JSON array.
pub(crate) fn json_items<'a>(json: &'a Json) -> (r: Option<&'a Vec<Json>>)
    ensures
        match r {
            Some(items) => items_of(*json) == Some(items@),
            None => items_of(*json).is_none(),
        },
{
    match json {
        Json::Array(items) => Some(items),
        _ => None,
    }
}

/// The members of a JSON object.
pub(crate) fn json_members<'a>(json: &'a Json) -> (r: Option<&'a Vec<Member>>)
    ensures
        match r {
            Some(members) => members_of(*json) == Some(members@),
            None => members_of(*json).is_none(),
        },
{
    match json {
        Json::Object(members) => Some(members),
        _ => None,
    }
}

/// The string stored under `key`.
pub(crate) fn find_text<'a>(members: &'a Vec<Member>, key: &str) -> (r: Option<&'a str>)
    ensures
        match r {
            Some(s) => text_field(members@, key@) == Some(s@),
            None => text_field(members@, key@).is_none(),
        },
{
    match find_member(members, key) {
        Some(json) => json_text(json),
        None => None,
    }
}

/// The array stored under `key`.
pub(crate) fn find_items<'a>(members: &'a Vec<Member>, key: &str) -> (r: Option<&'a Vec<Json>>)
    ensures
        match r {
            Some(items) => items_field(members@, key@) == Some(items@),
            None => items_field(members@, key@).is_none(),
        },
{
    match find_member(members, key) {
        Some(json) => json_items(json),
        None => None,
    }
}

/// The object stored under `key`.
pub(crate) fn find_members<'a>(members: &'a Vec<Member>, key: &str) -> (r: Option<&'a Vec<Member>>)
    ensures
        match r {
            Some(found) => members_field(members@, key@) == Some(found@),
            None => members_field(members@, key@).is_none(),
        },
{
    match find_member(members, key) {
        Some(json) => json_members(json),
        None => None,
    }
}

/// Takes an envelope apart into its discriminator and its payload.
pub fn open_envelope<'a>(json: &'a Json) -> (r: Result<(&'a str, &'a Json), DecodeError>)
    ensures
        match r {
            Ok((tag, payload)) => envelope_of(*json) == Ok::<_, DecodeError>((tag@, *payload)),
            Err(e) => envelope_of(*json) == Err::<(Seq<char>, Json), _>(e),
        },
{
    match json_members(json) {
        Some(members) => {
            match find_text(members, "$type") {
                Some(tag) => match find_member(members, "_value") {
                    Some(payload) => Ok((tag, payload)),
                    None => Err(DecodeError::MalformedEnvelope),
                },
                None => Err(DecodeError::MalformedEnvelope),
            }
        },
        None => Err(DecodeError::MalformedEnvelope),
    }
}

/// Whether the payload of the kind `tag` is a JSON string.
pub(crate) fn text_kind(tag: &str) -> (r: bool)
    ensures
        r == is_text_kind(tag@),
{
    str_eq(tag, "Integer") || str_eq(tag, "Float") || str_eq(tag, "String") || str_eq(
        tag,
        "ZoneDateTime",
    ) || str_eq(tag, "DateTime") || str_eq(tag, "Time") || str_eq(tag, "Date") || str_eq(
        tag,
        "Duration",
    )
}

/// Decodes the text of a payload of one of the kinds whose payload is a
/// JSON string.
fn decode_text(tag: &str, text: &str) -> (r: Result<Val, DecodeError>)
    requires
        is_text_kind(tag@),
    ensures
        outcome_view(r) == decode_text_spec(tag@, text@),
{
    if str_eq(tag, "Integer") {
        match decode_integer(text) {
            Ok(value) => Ok(Val::Integer { value }),
            Err(e) => Err(e),
        }
    } else if str_eq(tag, "Float") {
        if check_float(text) {
            Ok(Val::Float { value: text.to_owned() })
        } else {
            Err(DecodeError::NumericParseError)
        }
    } else if str_eq(tag, "String") {
        Ok(Val::String { value: text.to_owned() })
    } else if str_eq(tag, "ZoneDateTime") {
        match decode_zone_date_time(text) {
            Ok(value) => Ok(Val::ZoneDateTime { value }),
            Err(e) => Err(e),
        }
    } else if str_eq(tag, "DateTime") {
        match decode_date_time(text) {
            Ok(value) => Ok(Val::DateTime { value }),
            Err(e) => Err(e),
        }
    } else if str_eq(tag, "Time") {
        match decode_time(text) {
            Ok(value) => Ok(Val::Time { value }),
            Err(e) => Err(e),
        }
    } else if str_eq(tag, "Date") {
        match decode_date(text) {
            Ok(value) => Ok(Val::Date { value }),
            Err(e) => Err(e),
        }
    } else {
        match decode_duration(text) {
            Ok(value) => Ok(Val::Duration { value }),
            Err(e) => Err(e),
        }
    }
}

/// Decodes the items of a ByteArray payload.
pub fn decode_bytes(items: &Vec<Json>) -> (r: Result<Vec<u8>, DecodeError>)
    ensures
        match r {
            Ok(bytes) => bytes_spec(items@) == Ok::<_, DecodeError>(bytes@),
            Err(e) => bytes_spec(items@) == Err::<Seq<u8>, _>(e),
        },
{
    let mut out: Vec<u8> = Vec::new();
    let mut i: usize = 0;
    while i < items.len()
        invariant
            i <= items.len(),
            out@.len() == i,
            forall|k: int| 0 <= k < i ==> (#[trigger] byte_of(items@[k])) == Some(out@[k]),
        decreases items.len() - i,
    {
        match &items[i] {
            Json::Number(JsonNumber::Integer(n)) => {
                if 0 <= *n && *n <= 255 {
                    out.push(*n as u8);
                } else {
                    assert(byte_of(items@[i as int]).is_none());
                    return Err(DecodeError::ByteValueOutOfRange);
                }
            },
            _ => {
                assert(byte_of(items@[i as int]).is_none());
                return Err(DecodeError::ByteValueOutOfRange);
            },
        }
        i += 1;
    }
    assert(out@ =~= Seq::new(items@.len(), |i: int| byte_of(items@[i]).unwrap()));
    Ok(out)
}

/// Decodes the labels of a node.
pub fn decode_labels(items: &Vec<Json>) -> (r: Result<Vec<String>, DecodeError>)
    ensures
        match r {
            Ok(labels) => labels_spec(items@) == Ok::<_, DecodeError>(strings_view(labels@)),
            Err(e) => labels_spec(items@) == Err::<Seq<Seq<char>>, _>(e),
        },
{
    let mut out: Vec<String> = Vec::new();
    let mut i: usize = 0;
    while i < items.len()
        invariant
            i <= items.len(),
            out@.len() == i,
            forall|k: int| 0 <= k < i ==> (#[trigger] text_of(items@[k])) == Some(out@[k]@),
        decreases items.len() - i,
    {
        match json_text(&items[i]) {
            Some(s) => {
                out.push(s.to_owned());
            },
            None => {
                assert(text_of(items@[i as int]).is_none());
                return Err(DecodeError::MalformedEnvelope);
            },
        }
        i += 1;
    }
    assert(strings_view(out@) =~= Seq::new(items@.len(), |i: int| text_of(items@[i]).unwrap()));
    Ok(out)
}

/// Decodes one envelope into a typed value, with the default limit on how
/// deep envelopes may be nested.
pub fn decode(json: &Json) -> (r: Result<Val, DecodeError>)
    ensures
        outcome_view(r) == decode_spec(*json, DEFAULT_DEPTH_LIMIT as nat),
{
    decode_with_limit(json, DEFAULT_DEPTH_LIMIT)
}

/// Decodes one envelope into a typed value. At most `limit` envelopes may
/// be nested inside one another, the outermost counted; a deeper input
/// gives `RecursionLimitExceeded`.
pub fn decode_with_limit(json: &Json, limit: usize) -> (r: Result<Val, DecodeError>)
    ensures
        outcome_view(r) == decode_spec(*json, limit as nat),
    decreases limit, 0nat, 0nat,
{
    if limit == 0 {
        return Err(DecodeError::RecursionLimitExceeded);
    }
    match open_envelope(json) {
        Ok((tag, payload)) => decode_payload(tag, payload, limit - 1),
        Err(e) => Err(e),
    }
}

/// Decodes a payload under its discriminator. At most `depth` envelopes
/// may be nested inside the payload.
pub fn decode_payload(tag: &str, payload: &Json, depth: usize) -> (r: Result<Val, DecodeError>)
    ensures
        outcome_view(r) == decode_payload_spec(tag@, *payload, depth as nat),
    decreases depth, 3nat, 0nat,
{
    if text_kind(tag) {
        match json_text(payload) {
            Some(text) => decode_text(tag, text),
            None => Err(DecodeError::MalformedEnvelope),
        }
    } else if str_eq(tag, "Boolean") {
        match payload {
            Json::Bool(b) => Ok(Val::Boolean { value: *b }),
            _ => Err(DecodeError::MalformedEnvelope),
        }
    } else if str_eq(tag, "ByteArray") {
        match json_items(payload) {
            Some(items) => match decode_bytes(items) {
                Ok(value) => Ok(Val::ByteArray { value }),
                Err(e) => Err(e),
            },
            None => Err(DecodeError::MalformedEnvelope),
        }
    } else if str_eq(tag, "Map") {
        match json_members(payload) {
            Some(members) => match decode_members(members, depth) {
                Ok(value) => Ok(Val::Mapping { value }),
                Err(e) => Err(e),
            },
            None => Err(DecodeError::MalformedEnvelope),
        }
    } else if str_eq(tag, "List") {
        match json_items(payload) {
            Some(items) => match decode_items(items, depth) {
                Ok(value) => Ok(Val::List { value }),
                Err(e) => Err(e),
            },
            None => Err(DecodeError::MalformedEnvelope),
        }
    } else if str_eq(tag, "Node") {
        match decode_node(payload, depth) {
            Ok(value) => Ok(Val::Node { value }),
            Err(e) => Err(e),
        }
    } else if str_eq(tag, "Relationship") {
        match decode_relationship(payload, depth) {
            Ok(value) => Ok(Val::Relationship { value }),
            Err(e) => Err(e),
        }
    } else if str_eq(tag, "Path") {
        match json_items(payload) {
            Some(items) => match decode_path(items, depth) {
                Ok(value) => Ok(Val::Path { value }),
                Err(e) => Err(e),
            },
            None => Err(DecodeError::MalformedEnvelope),
        }
    } else {
        Err(DecodeError::UnknownType)
    }
}

/// Decodes the items of a List payload, in order.
pub fn decode_items(items: &Vec<Json>, depth: usize) -> (r: Result<Vec<Val>, DecodeError>)
    ensures
        match r {
            Ok(vals) => decode_items_spec(items@, 0, depth as nat) == Ok::<_, DecodeError>(
                vals_view(vals),
            ),
            Err(e) => decode_items_spec(items@, 0, depth as nat) == Err::<Seq<ValView>, _>(e),
        },
    decreases depth, 1nat, items.len(),
{
    let mut out: Vec<Val> = Vec::new();
    let mut i: usize = 0;
    assert(vals_view(out) =~= Seq::empty());
    while i < items.len()
        invariant
            i <= items.len(),
            out@.len() == i,
            decode_items_spec(items@, 0, depth as nat) == match decode_items_spec(
                items@,
                i as nat,
                depth as nat,
            ) {
                Ok(rest) => Ok(vals_view(out) + rest),
                Err(e) => Err(e),
            },
        decreases items.len() - i,
    {
        let ghost done = vals_view(out);
        match decode_with_limit(&items[i], depth) {
            Ok(v) => {
                proof {
                    let ghost model = val_view(v);
                    match decode_items_spec(items@, (i + 1) as nat, depth as nat) {
                        Ok(rest) => {
                            assert(done + (seq![model] + rest) =~= done.push(model) + rest);
                        },
                        Err(_) => {},
                    }
                }
                out.push(v);
                assert(vals_view(out) =~= done.push(val_view(out@[i as int])));
            },
            Err(e) => {
                return Err(e);
            },
        }
        i += 1;
    }
    assert(vals_view(out) + Seq::<ValView>::empty() =~= vals_view(out));
    Ok(out)
}

/// Decodes the members of a Map payload. Where a key occurs more than
/// once, the last occurrence stays.
pub fn decode_members(members: &Vec<Member>, depth: usize) -> (r: Result<ValMap, DecodeError>)
    ensures
        match r {
            Ok(m) => match decode_members_spec(members@, 0, depth as nat) {
                Ok(pairs) => m.view() == pairs_to_map(pairs),
                Err(_) => false,
            },
            Err(e) => decode_members_spec(members@, 0, depth as nat) == Err::<
                Seq<(Seq<char>, ValView)>,
                _,
            >(e),
        },
    decreases depth, 1nat, members.len(),
{
    let mut out: ValMap = ValMap::new();
    let ghost mut done: Seq<(Seq<char>, ValView)> = Seq::empty();
    let mut i: usize = 0;
    while i < members.len()
        invariant
            i <= members.len(),
            out.view() == pairs_to_map(done),
            decode_members_spec(members@, 0, depth as nat) == match decode_members_spec(
                members@,
                i as nat,
                depth as nat,
            ) {
                Ok(rest) => Ok(done + rest),
                Err(e) => Err(e),
            },
        decreases members.len() - i,
    {
        match decode_with_limit(&members[i].value, depth) {
            Ok(v) => {
                let ghost pair = (members@[i as int].key@, val_view(v));
                proof {
                    match decode_members_spec(members@, (i + 1) as nat, depth as nat) {
                        Ok(rest) => {
                            assert(done + (seq![pair] + rest) =~= done.push(pair) + rest);
                        },
                        Err(_) => {},
                    }
                    assert(done.push(pair).drop_last() =~= done);
                }
                out = out.insert(members[i].key.clone(), v);
                proof {
                    done = done.push(pair);
                }
            },
            Err(e) => {
                return Err(e);
            },
        }
        i += 1;
    }
    assert(done + Seq::<(Seq<char>, ValView)>::empty() =~= done);
    Ok(out)
}

/// Decodes the payload of a Node.
pub fn decode_node(payload: &Json, depth: usize) -> (r: Result<Node, DecodeError>)
    ensures
        match r {
            Ok(node) => decode_node_spec(*payload, depth as nat) == Ok::<_, DecodeError>(
                node_view(node),
            ),
            Err(e) => decode_node_spec(*payload, depth as nat) == Err::<NodeView, _>(e),
        },
    decreases depth, 2nat, 0nat,
{
    let members = match json_members(payload) {
        Some(members) => members,
        None => {
            return Err(DecodeError::MalformedEnvelope);
        },
    };
    let labels = find_items(members, "_labels");
    let properties = find_members(members, "_properties");
    let element_id = find_text(members, "_element_id");
    match (labels, properties, element_id) {
        (Some(labels), Some(properties), Some(element_id)) => {
            let labels = match decode_labels(labels) {
                Ok(labels) => labels,
                Err(e) => {
                    return Err(e);
                },
            };
            match decode_members(properties, depth) {
                Ok(properties) => Ok(
                    Node { labels, properties, element_id: element_id.to_owned() },
                ),
                Err(e) => Err(e),
            }
        },
        _ => Err(DecodeError::MalformedEnvelope),
    }
}

/// Decodes the payload of a Relationship.
pub fn decode_relationship(payload: &Json, depth: usize) -> (r: Result<Relationship, DecodeError>)
    ensures
        match r {
            Ok(rel) => decode_relationship_spec(*payload, depth as nat) == Ok::<_, DecodeError>(
                relationship_view(rel),
            ),
            Err(e) => decode_relationship_spec(*payload, depth as nat) == Err::<
                RelationshipView,
                _,
            >(e),
        },
    decreases depth, 2nat, 0nat,
{
    let members = match json_members(payload) {
        Some(members) => members,
        None => {
            return Err(DecodeError::MalformedEnvelope);
        },
    };
    let type_ = find_text(members, "_type");
    let properties = find_members(members, "_properties");
    let element_id = find_text(members, "_element_id");
    let start = find_text(members, "_start_node_element_id");
    let end = find_text(members, "_end_node_element_id");
    match (type_, properties, element_id, start, end) {
        (Some(type_), Some(properties), Some(element_id), Some(start), Some(end)) => {
            match decode_members(properties, depth) {
                Ok(properties) => Ok(
                    Relationship {
                        type_: type_.to_owned(),
                        properties,
                        element_id: element_id.to_owned(),
                        start_node_element_id: start.to_owned(),
                        end_node_element_id: end.to_owned(),
                    },
                ),
                Err(e) => Err(e),
            }
        },
        _ => Err(DecodeError::MalformedEnvelope),
    }
}

/// The payload of a path element, which must be an envelope with the
/// discriminator `tag`.
pub fn open_path_element<'a>(json: &'a Json, tag: &str) -> (r: Result<&'a Json, DecodeError>)
    ensures
        match r {
            Ok(payload) => path_element_spec(*json, tag@) == Ok::<_, DecodeError>(*payload),
            Err(e) => path_element_spec(*json, tag@) == Err::<Json, _>(e),
        },
{
    match open_envelope(json) {
        Ok((found, payload)) => {
            if str_eq(found, tag) {
                Ok(payload)
            } else {
                Err(DecodeError::InvalidPathShape)
            }
        },
        Err(e) => Err(e),
    }
}

/// Decodes the elements of a Path payload: nodes at the even places,
/// relationships at the odd ones, an odd number of them in all.
pub fn decode_path(items: &Vec<Json>, depth: usize) -> (r: Result<Path, DecodeError>)
    ensures
        match r {
            Ok(path) => decode_path_spec(items@, depth as nat) == Ok::<_, DecodeError>(
                path_view(path),
            ),
            Err(e) => decode_path_spec(items@, depth as nat) == Err::<PathView, _>(e),
        },
        r matches Ok(path) ==> path.well_formed(),
    decreases depth, 2nat, 0nat,
{
    if items.len() % 2 == 0 {
        return Err(DecodeError::InvalidPathShape);
    }
    let mut nodes: Vec<Node> = Vec::new();
    let mut relationships: Vec<Relationship> = Vec::new();
    let mut i: usize = 0;
    assert(nodes_view(nodes) =~= Seq::empty());
    assert(relationships_view(relationships) =~= Seq::empty());
    while i < items.len()
        invariant
            i <= items.len(),
            items.len() % 2 == 1,
            decode_path_from_spec(items@, 0, depth as nat) == match decode_path_from_spec(
                items@,
                i as nat,
                depth as nat,
            ) {
                Ok(rest) => Ok(
                    PathView {
                        nodes: nodes_view(nodes) + rest.nodes,
                        relationships: relationships_view(relationships) + rest.relationships,
                    },
                ),
                Err(e) => Err(e),
            },
        decreases items.len() - i,
    {
        let ghost done_nodes = nodes_view(nodes);
        let ghost done_rels = relationships_view(relationships);
        if depth == 0 {
            return Err(DecodeError::RecursionLimitExceeded);
        }
        if i % 2 == 0 {
            assert(decode_path_node_spec(items@[i as int], depth as nat) == match path_element_spec(
                items@[i as int],
                "Node"@,
            ) {
                Ok(payload) => decode_node_spec(payload, (depth - 1) as nat),
                Err(e) => Err(e),
            });
            let payload = match open_path_element(&items[i], "Node") {
                Ok(payload) => payload,
                Err(e) => {
                    return Err(e);
                },
            };
            match decode_node(payload, depth - 1) {
                Ok(node) => {
                    proof {
                        let model = node_view(node);
                        match decode_path_from_spec(items@, (i + 1) as nat, depth as nat) {
                            Ok(rest) => {
                                assert(done_nodes + (seq![model] + rest.nodes) =~= done_nodes.push(
                                    model,
                                ) + rest.nodes);
                            },
                            Err(_) => {},
                        }
                    }
                    nodes.push(node);
                    assert(nodes_view(nodes) =~= done_nodes.push(
                        node_view(nodes@[nodes@.len() - 1]),
                    ));
                },
                Err(e) => {
                    return Err(e);
                },
            }
        } else {
            assert(decode_path_relationship_spec(items@[i as int], depth as nat)
                == match path_element_spec(items@[i as int], "Relationship"@) {
                Ok(payload) => decode_relationship_spec(payload, (depth - 1) as nat),
                Err(e) => Err(e),
            });
            let payload = match open_path_element(&items[i], "Relationship") {
                Ok(payload) => payload,
                Err(e) => {
                    return Err(e);
                },
            };
            match decode_relationship(payload, depth - 1) {
                Ok(rel) => {
                    proof {
                        let model = relationship_view(rel);
                        match decode_path_from_spec(items@, (i + 1) as nat, depth as nat) {
                            Ok(rest) => {
                                assert(done_rels + (seq![model] + rest.relationships)
                                    =~= done_rels.push(model) + rest.relationships);
                            },
                            Err(_) => {},
                        }
                    }
                    relationships.push(rel);
                    assert(relationships_view(relationships) =~= done_rels.push(
                        relationship_view(relationships@[relationships@.len() - 1]),
                    ));
                },
                Err(e) => {
                    return Err(e);
                },
            }
        }
        i += 1;
    }
    proof {
        crate::laws::lemma_path_shape(items@, depth as nat);
    }
    assert(nodes_view(nodes) + Seq::<NodeView>::empty() =~= nodes_view(nodes));
    assert(relationships_view(relationships) + Seq::<RelationshipView>::empty()
        =~= relationships_view(relationships));
    Ok(Path { nodes, relationships })
}

} // verus!
