use vstd::prelude::*;
use crate::decode::{
    decode_items_spec, decode_members_spec, decode_node_spec, decode_path_from_spec,
    decode_path_node_spec, decode_path_relationship_spec, decode_path_spec, decode_payload_spec,
    decode_relationship_spec, decode_spec, decode_text_spec, envelope_of, is_text_kind, items_of,
    members_field, members_of, outcome_view, path_element_spec, text_of,
};
use crate::error::DecodeError;
use crate::json::{Json, Member};
use crate::scalar::{decimal_text, lemma_decimal_text_round_trip};
use crate::trace::{
    first_failing_element, first_failing_item, first_failing_member, path_element_fails,
    payload_trace_spec, trace_spec, StepView,
};
use crate::value::{kind_of, pairs_to_map, Val, ValView};

verus! {

/// An Integer envelope whose payload writes the number `n` in base 10
/// decodes to exactly `n` where `n` fits in 64 bits, and fails with
/// `NumericParseError` where it does not.
pub proof fn lemma_integer_envelope(json: Json, payload: Json, n: int, limit: nat)
    requires
        limit > 0,
        envelope_of(json) == Ok::<_, DecodeError>(("Integer"@, payload)),
        text_of(payload) == Some(decimal_text(n)),
    ensures
        i64::MIN <= n <= i64::MAX ==> decode_spec(json, limit) == Ok::<_, DecodeError>(
            ValView::Integer(n as i64),
        ),
        !(i64::MIN <= n <= i64::MAX) ==> decode_spec(json, limit) == Err::<ValView, _>(
            DecodeError::NumericParseError,
        ),
{
    lemma_decimal_text_round_trip(n);
    assert(is_text_kind("Integer"@));
    assert(decode_payload_spec("Integer"@, payload, (limit - 1) as nat) == decode_text_spec(
        "Integer"@,
        decimal_text(n),
    ));
}

/// Whether `tag` is one of the fifteen discriminators.
pub open spec fn is_known_kind(tag: Seq<char>) -> bool {
    is_text_kind(tag) || tag == "Boolean"@ || tag == "ByteArray"@ || tag == "Map"@ || tag
        == "List"@ || tag == "Node"@ || tag == "Relationship"@ || tag == "Path"@
}

/// Dispatch goes by the discriminator alone: an envelope that decodes gives
/// a value of the kind that its discriminator names, and an envelope with
/// any other discriminator than the fifteen fails with `UnknownType`.
pub proof fn lemma_dispatch(json: Json, tag: Seq<char>, payload: Json, limit: nat)
    requires
        limit > 0,
        envelope_of(json) == Ok::<_, DecodeError>((tag, payload)),
    ensures
        decode_spec(json, limit) matches Ok(v) ==> kind_of(v) == tag,
        !is_known_kind(tag) ==> decode_spec(json, limit) == Err::<ValView, _>(
            DecodeError::UnknownType,
        ),
        decode_spec(json, limit) is Ok ==> is_known_kind(tag),
{
    assert(decode_spec(json, limit) == decode_payload_spec(tag, payload, (limit - 1) as nat));
    if is_text_kind(tag) {
        match text_of(payload) {
            Some(text) => {
                assert(decode_payload_spec(tag, payload, (limit - 1) as nat) == decode_text_spec(
                    tag,
                    text,
                ));
            },
            None => {},
        }
    }
}

/// The discriminators `List` and `Map` are none of the others.
proof fn lemma_container_tags()
    ensures
        !is_text_kind("List"@),
        !is_text_kind("Map"@),
        "List"@ != "Boolean"@,
        "List"@ != "ByteArray"@,
        "List"@ != "Map"@,
        "Map"@ != "Boolean"@,
        "Map"@ != "ByteArray"@,
{
    reveal_strlit("List");
    reveal_strlit("Map");
    reveal_strlit("Boolean");
    reveal_strlit("ByteArray");
    reveal_strlit("Integer");
    reveal_strlit("Float");
    reveal_strlit("String");
    reveal_strlit("ZoneDateTime");
    reveal_strlit("DateTime");
    reveal_strlit("Time");
    reveal_strlit("Date");
    reveal_strlit("Duration");
    assert("List"@[0] == 'L');
    assert("Map"@[0] == 'M');
    assert("Time"@[0] == 'T');
    assert("Date"@[0] == 'D');
}

/// A List envelope decodes to the list of what its items decode to, each
/// with one level less of nesting left; the first item that fails gives
/// the error.
pub proof fn lemma_list_envelope(json: Json, payload: Json, items: Seq<Json>, limit: nat)
    requires
        limit > 0,
        envelope_of(json) == Ok::<_, DecodeError>(("List"@, payload)),
        items_of(payload) == Some(items),
    ensures
        decode_spec(json, limit) == match decode_items_spec(items, 0, (limit - 1) as nat) {
            Ok(vals) => Ok(ValView::List(vals)),
            Err(e) => Err(e),
        },
{
    lemma_container_tags();
}

/// A Map envelope decodes to the mapping from each key to what its value
/// decodes to, each with one level less of nesting left; the first member
/// that fails gives the error.
pub proof fn lemma_map_envelope(json: Json, payload: Json, members: Seq<Member>, limit: nat)
    requires
        limit > 0,
        envelope_of(json) == Ok::<_, DecodeError>(("Map"@, payload)),
        members_of(payload) == Some(members),
    ensures
        decode_spec(json, limit) == match decode_members_spec(members, 0, (limit - 1) as nat) {
            Ok(pairs) => Ok(ValView::Mapping(pairs_to_map(pairs))),
            Err(e) => Err(e),
        },
{
    lemma_container_tags();
}

/// A List payload decodes item by item: where it succeeds, the result has
/// one value for each item, in order, and each is what its item decodes to.
pub proof fn lemma_items_decode_each(items: Seq<Json>, from: nat, depth: nat)
    requires
        from <= items.len(),
    ensures
        match decode_items_spec(items, from, depth) {
            Ok(vals) => vals.len() == items.len() - from && forall|i: int|
                0 <= i < vals.len() ==> decode_spec(#[trigger] items[from + i], depth) == Ok::<
                    _,
                    DecodeError,
                >(vals[i]),
            Err(e) => exists|i: int|
                from <= i < items.len() && decode_spec(#[trigger] items[i], depth) == Err::<
                    ValView,
                    _,
                >(e),
        },
    decreases items.len() - from,
{
    if from < items.len() {
        lemma_items_decode_each(items, from + 1, depth);
        match decode_spec(items[from as int], depth) {
            Ok(v) => match decode_items_spec(items, from + 1, depth) {
                Ok(rest) => {
                    let vals = seq![v] + rest;
                    assert forall|i: int| 0 <= i < vals.len() implies decode_spec(
                        #[trigger] items[from + i],
                        depth,
                    ) == Ok::<_, DecodeError>(vals[i]) by {
                        if i > 0 {
                            assert(items[from + i] == items[(from + 1) + (i - 1)]);
                            assert(vals[i] == rest[i - 1]);
                        }
                    }
                },
                Err(e) => {
                    let i = choose|i: int|
                        from + 1 <= i < items.len() && decode_spec(#[trigger] items[i], depth)
                            == Err::<ValView, _>(e);
                    assert(from <= i < items.len());
                },
            },
            Err(e) => {
                assert(decode_spec(items[from as int], depth) == Err::<ValView, _>(e));
            },
        }
    }
}

/// A Map payload decodes member by member: where it succeeds, the result
/// has one pair for each member, in order, with the member's key and what
/// its value decodes to.
pub proof fn lemma_members_decode_each(members: Seq<Member>, from: nat, depth: nat)
    requires
        from <= members.len(),
    ensures
        match decode_members_spec(members, from, depth) {
            Ok(pairs) => pairs.len() == members.len() - from && forall|i: int|
                0 <= i < pairs.len() ==> (#[trigger] pairs[i]).0 == members[from + i].key@
                    && decode_spec(members[from + i].value, depth) == Ok::<_, DecodeError>(
                    pairs[i].1,
                ),
            Err(e) => exists|i: int|
                from <= i < members.len() && decode_spec((#[trigger] members[i]).value, depth)
                    == Err::<ValView, _>(e),
        },
    decreases members.len() - from,
{
    if from < members.len() {
        lemma_members_decode_each(members, from + 1, depth);
        match decode_spec(members[from as int].value, depth) {
            Ok(v) => match decode_members_spec(members, from + 1, depth) {
                Ok(rest) => {
                    let pairs = seq![(members[from as int].key@, v)] + rest;
                    assert forall|i: int| 0 <= i < pairs.len() implies (#[trigger] pairs[i]).0
                        == members[from + i].key@ && decode_spec(members[from + i].value, depth)
                        == Ok::<_, DecodeError>(pairs[i].1) by {
                        if i > 0 {
                            assert(members[from + i] == members[(from + 1) + (i - 1)]);
                            assert(pairs[i] == rest[i - 1]);
                        }
                    }
                },
                Err(e) => {
                    let i = choose|i: int|
                        from + 1 <= i < members.len() && decode_spec(
                            (#[trigger] members[i]).value,
                            depth,
                        ) == Err::<ValView, _>(e);
                    assert(from <= i < members.len());
                },
            },
            Err(e) => {
                assert(decode_spec(members[from as int].value, depth) == Err::<ValView, _>(e));
            },
        }
    }
}

/// The elements of a path from index `from` on decode to as many nodes as
/// there are even places among them, and as many relationships as there
/// are odd places.
pub proof fn lemma_path_lengths_from(items: Seq<Json>, from: nat, depth: nat)
    requires
        from <= items.len(),
    ensures
        decode_path_from_spec(items, from, depth) matches Ok(path) ==> path.nodes.len() == (
        items.len() + 1) / 2 - (from + 1) / 2 && path.relationships.len() == items.len() / 2 - from
            / 2,
    decreases items.len() - from,
{
    if from < items.len() {
        lemma_path_lengths_from(items, from + 1, depth);
    }
}

/// A Path payload with an even number of elements, none among them, fails
/// with `InvalidPathShape`; one that decodes has one node more than it has
/// relationships, and its elements are all kept.
pub proof fn lemma_path_shape(items: Seq<Json>, depth: nat)
    ensures
        items.len() % 2 == 0 ==> decode_path_spec(items, depth) == Err::<
            crate::value::PathView,
            _,
        >(DecodeError::InvalidPathShape),
        decode_path_spec(items, depth) matches Ok(path) ==> path.nodes.len()
            == path.relationships.len() + 1 && path.nodes.len() + path.relationships.len()
            == items.len(),
{
    lemma_path_lengths_from(items, 0, depth);
}

/// Decoding depends on the input alone: two results for the same JSON tree
/// and the same limit have the same model.
pub proof fn lemma_decode_repeatable(
    json: Json,
    limit: nat,
    first: Result<Val, DecodeError>,
    second: Result<Val, DecodeError>,
)
    requires
        outcome_view(first) == decode_spec(json, limit),
        outcome_view(second) == decode_spec(json, limit),
    ensures
        outcome_view(first) == outcome_view(second),
        first is Ok <==> second is Ok,
{
}

/// Whether a result is anything but a refusal for depth.
pub open spec fn settled<T>(r: Result<T, DecodeError>) -> bool {
    !(r matches Err(DecodeError::RecursionLimitExceeded))
}

/// The depth limit only refuses: where decoding under the limit `a` gives
/// a value, or an error other than `RecursionLimitExceeded`, decoding under
/// any larger limit gives the same.
pub proof fn lemma_limit_decode(json: Json, a: nat, b: nat)
    requires
        a <= b,
        settled(decode_spec(json, a)),
    ensures
        decode_spec(json, b) == decode_spec(json, a),
    decreases a, 0nat, 0nat,
{
    match envelope_of(json) {
        Ok((tag, payload)) => {
            lemma_limit_payload(tag, payload, (a - 1) as nat, (b - 1) as nat);
        },
        Err(_) => {},
    }
}

/// The same for a payload under its discriminator.
pub proof fn lemma_limit_payload(tag: Seq<char>, payload: Json, a: nat, b: nat)
    requires
        a <= b,
        settled(decode_payload_spec(tag, payload, a)),
    ensures
        decode_payload_spec(tag, payload, b) == decode_payload_spec(tag, payload, a),
    decreases a, 3nat, 0nat,
{
    if is_text_kind(tag) || tag == "Boolean"@ || tag == "ByteArray"@ {
    } else if tag == "Map"@ {
        match members_of(payload) {
            Some(members) => {
                lemma_limit_members(members, 0, a, b);
            },
            None => {},
        }
    } else if tag == "List"@ {
        match items_of(payload) {
            Some(items) => {
                lemma_limit_items(items, 0, a, b);
            },
            None => {},
        }
    } else if tag == "Node"@ {
        lemma_limit_node(payload, a, b);
    } else if tag == "Relationship"@ {
        lemma_limit_relationship(payload, a, b);
    } else if tag == "Path"@ {
        match items_of(payload) {
            Some(items) => {
                if items.len() % 2 == 1 {
                    lemma_limit_path_from(items, 0, a, b);
                }
            },
            None => {},
        }
    }
}

/// The same for the items of a List payload.
pub proof fn lemma_limit_items(items: Seq<Json>, from: nat, a: nat, b: nat)
    requires
        a <= b,
        settled(decode_items_spec(items, from, a)),
    ensures
        decode_items_spec(items, from, b) == decode_items_spec(items, from, a),
    decreases a, 1nat, items.len() - from,
{
    if from < items.len() {
        lemma_limit_decode(items[from as int], a, b);
        if decode_spec(items[from as int], a) is Ok {
            lemma_limit_items(items, from + 1, a, b);
        }
    }
}

/// The same for the members of a Map payload.
pub proof fn lemma_limit_members(members: Seq<Member>, from: nat, a: nat, b: nat)
    requires
        a <= b,
        settled(decode_members_spec(members, from, a)),
    ensures
        decode_members_spec(members, from, b) == decode_members_spec(members, from, a),
    decreases a, 1nat, members.len() - from,
{
    if from < members.len() {
        lemma_limit_decode(members[from as int].value, a, b);
        if decode_spec(members[from as int].value, a) is Ok {
            lemma_limit_members(members, from + 1, a, b);
        }
    }
}

/// The same for the payload of a Node.
pub proof fn lemma_limit_node(payload: Json, a: nat, b: nat)
    requires
        a <= b,
        settled(decode_node_spec(payload, a)),
    ensures
        decode_node_spec(payload, b) == decode_node_spec(payload, a),
    decreases a, 2nat, 0nat,
{
    match members_of(payload) {
        Some(members) => match members_field(members, "_properties"@) {
            Some(properties) => {
                if settled(decode_members_spec(properties, 0, a)) {
                    lemma_limit_members(properties, 0, a, b);
                }
            },
            None => {},
        },
        None => {},
    }
}

/// The same for the payload of a Relationship.
pub proof fn lemma_limit_relationship(payload: Json, a: nat, b: nat)
    requires
        a <= b,
        settled(decode_relationship_spec(payload, a)),
    ensures
        decode_relationship_spec(payload, b) == decode_relationship_spec(payload, a),
    decreases a, 2nat, 0nat,
{
    match members_of(payload) {
        Some(members) => match members_field(members, "_properties"@) {
            Some(properties) => {
                if settled(decode_members_spec(properties, 0, a)) {
                    lemma_limit_members(properties, 0, a, b);
                }
            },
            None => {},
        },
        None => {},
    }
}

/// The same for the elements of a Path payload.
pub proof fn lemma_limit_path_from(items: Seq<Json>, from: nat, a: nat, b: nat)
    requires
        a <= b,
        settled(decode_path_from_spec(items, from, a)),
    ensures
        decode_path_from_spec(items, from, b) == decode_path_from_spec(items, from, a),
    decreases a, 1nat, items.len() - from,
{
    if from < items.len() {
        let item = items[from as int];
        if from % 2 == 0 {
            assert(settled(decode_path_node_spec(item, a)));
            match path_element_spec(item, "Node"@) {
                Ok(payload) => {
                    lemma_limit_node(payload, (a - 1) as nat, (b - 1) as nat);
                },
                Err(_) => {},
            }
            assert(decode_path_node_spec(item, b) == decode_path_node_spec(item, a));
            if decode_path_node_spec(item, a) is Ok {
                lemma_limit_path_from(items, from + 1, a, b);
            }
        } else {
            assert(settled(decode_path_relationship_spec(item, a)));
            match path_element_spec(item, "Relationship"@) {
                Ok(payload) => {
                    lemma_limit_relationship(payload, (a - 1) as nat, (b - 1) as nat);
                },
                Err(_) => {},
            }
            assert(decode_path_relationship_spec(item, b) == decode_path_relationship_spec(
                item,
                a,
            ));
            if decode_path_relationship_spec(item, a) is Ok {
                lemma_limit_path_from(items, from + 1, a, b);
            }
        }
    }
}

/// Where the items of a List payload all decode, none is found failing.
pub proof fn lemma_no_failing_item(items: Seq<Json>, from: nat, depth: nat)
    requires
        decode_items_spec(items, from, depth) is Ok,
    ensures
        first_failing_item(items, from, depth).is_none(),
    decreases items.len() - from,
{
    if from < items.len() {
        lemma_no_failing_item(items, from + 1, depth);
    }
}

/// Where the members of a Map payload all decode, none is found failing.
pub proof fn lemma_no_failing_member(members: Seq<Member>, from: nat, depth: nat)
    requires
        decode_members_spec(members, from, depth) is Ok,
    ensures
        first_failing_member(members, from, depth).is_none(),
    decreases members.len() - from,
{
    if from < members.len() {
        lemma_no_failing_member(members, from + 1, depth);
    }
}

/// Where the elements of a Path payload all decode, none is found failing.
pub proof fn lemma_no_failing_element(items: Seq<Json>, from: nat, depth: nat)
    requires
        decode_path_from_spec(items, from, depth) is Ok,
    ensures
        first_failing_element(items, from, depth).is_none(),
    decreases items.len() - from,
{
    if from < items.len() {
        assert(!path_element_fails(items[from as int], from, depth));
        lemma_no_failing_element(items, from + 1, depth);
    }
}

/// An envelope that decodes has nothing to locate: the way to a failure is
/// empty.
pub proof fn lemma_trace_of_success(json: Json, limit: nat)
    requires
        decode_spec(json, limit) is Ok,
    ensures
        trace_spec(json, limit) == Seq::<StepView>::empty(),
{
    match envelope_of(json) {
        Ok((tag, payload)) => {
            let depth = (limit - 1) as nat;
            assert(decode_payload_spec(tag, payload, depth) is Ok);
            if is_text_kind(tag) || tag == "Boolean"@ || tag == "ByteArray"@ {
            } else if tag == "Map"@ {
                match members_of(payload) {
                    Some(members) => {
                        lemma_no_failing_member(members, 0, depth);
                    },
                    None => {},
                }
            } else if tag == "List"@ {
                match items_of(payload) {
                    Some(items) => {
                        lemma_no_failing_item(items, 0, depth);
                    },
                    None => {},
                }
            } else if tag == "Node"@ || tag == "Relationship"@ {
                match members_of(payload) {
                    Some(members) => match members_field(members, "_properties"@) {
                        Some(properties) => {
                            if decode_members_spec(properties, 0, depth) is Ok {
                                lemma_no_failing_member(properties, 0, depth);
                            }
                        },
                        None => {},
                    },
                    None => {},
                }
            } else if tag == "Path"@ {
                match items_of(payload) {
                    Some(items) => {
                        if items.len() % 2 == 1 {
                            lemma_no_failing_element(items, 0, depth);
                        }
                    },
                    None => {},
                }
            }
            assert(payload_trace_spec(tag, payload, depth) =~= Seq::<StepView>::empty());
        },
        Err(_) => {},
    }
}

} // verus!
