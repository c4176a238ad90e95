use vstd::prelude::*;
use crate::decode::{
    decode_labels, decode_node, decode_path_node_spec, decode_path_relationship_spec,
    decode_relationship, decode_spec, decode_with_limit, envelope_of, find_items, find_members,
    find_text, is_text_kind, items_field, items_of, json_items, json_members, labels_spec,
    members_field, members_of, open_envelope, open_path_element, outcome_view,
    path_element_spec, text_field,
};
use crate::error::DecodeError;
use crate::json::{Json, Member};
use crate::text::str_eq;
use crate::value::Val;

verus! {

/// One step from a container into what it holds.
#[derive(Debug, PartialEq, Eq)]
pub enum Step {
    /// Into the item at this index of a List or Path payload.
    Index(usize),
    /// Into the value under this key of a Map payload, or into the field of
    /// this name of a Node or Relationship payload.
    Key(String),
}

/// The mathematical model of a [`Step`].
pub enum StepView {
    Index(nat),
    Key(Seq<char>),
}

/// The model of a step.
pub open spec fn step_view(step: Step) -> StepView {
    match step {
        Step::Index(i) => StepView::Index(i as nat),
        Step::Key(k) => StepView::Key(k@),
    }
}

/// The models of a sequence of steps, in order.
pub open spec fn steps_view(steps: Seq<Step>) -> Seq<StepView> {
    Seq::new(steps.len(), |i: int| step_view(steps[i]))
}

/// The index of the first item from `from` on that does not decode.
pub open spec fn first_failing_item(items: Seq<Json>, from: nat, depth: nat) -> Option<nat>
    decreases items.len() - from,
{
    if from >= items.len() {
        None
    } else if decode_spec(items[from as int], depth) is Err {
        Some(from)
    } else {
        first_failing_item(items, from + 1, depth)
    }
}

/// The index of the first member from `from` on whose value does not decode.
pub open spec fn first_failing_member(members: Seq<Member>, from: nat, depth: nat) -> Option<nat>
    decreases members.len() - from,
{
    if from >= members.len() {
        None
    } else if decode_spec(members[from as int].value, depth) is Err {
        Some(from)
    } else {
        first_failing_member(members, from + 1, depth)
    }
}

/// Whether the path element at `index` does not decode.
pub open spec fn path_element_fails(item: Json, index: nat, depth: nat) -> bool {
    if index % 2 == 0 {
        decode_path_node_spec(item, depth) is Err
    } else {
        decode_path_relationship_spec(item, depth) is Err
    }
}

/// The index of the first path element from `from` on that does not decode.
pub open spec fn first_failing_element(items: Seq<Json>, from: nat, depth: nat) -> Option<nat>
    decreases items.len() - from,
{
    if from >= items.len() {
        None
    } else if path_element_fails(items[from as int], from, depth) {
        Some(from)
    } else {
        first_failing_element(items, from + 1, depth)
    }
}

/// Whether the fields of a Node payload other than its properties are in
/// order, so that only a property can make it fail.
pub open spec fn node_frame(members: Seq<Member>) -> bool {
    items_field(members, "_labels"@) matches Some(labels) && labels_spec(labels) is Ok
        && text_field(members, "_element_id"@) is Some
}

/// Whether the fields of a Relationship payload other than its properties
/// are in order.
pub open spec fn relationship_frame(members: Seq<Member>) -> bool {
    text_field(members, "_type"@) is Some && text_field(members, "_element_id"@) is Some
        && text_field(members, "_start_node_element_id"@) is Some && text_field(
        members,
        "_end_node_element_id"@,
    ) is Some
}

/// The way from an envelope to the innermost envelope that makes decoding
/// fail: at each container, the step into the first thing in it that does
/// not decode. Empty where the envelope decodes, and where it is itself
/// what fails.
pub open spec fn trace_spec(json: Json, limit: nat) -> Seq<StepView>
    decreases limit, 0nat,
{
    if limit == 0 {
        Seq::empty()
    } else {
        match envelope_of(json) {
            Ok((tag, payload)) => payload_trace_spec(tag, payload, (limit - 1) as nat),
            Err(_) => Seq::empty(),
        }
    }
}

/// The same for a payload under its discriminator.
pub open spec fn payload_trace_spec(tag: Seq<char>, payload: Json, depth: nat) -> Seq<StepView>
    decreases depth, 3nat,
{
    if is_text_kind(tag) || tag == "Boolean"@ || tag == "ByteArray"@ {
        Seq::empty()
    } else if tag == "Map"@ {
        match members_of(payload) {
            Some(members) => members_trace_spec(members, depth),
            None => Seq::empty(),
        }
    } else if tag == "List"@ {
        match items_of(payload) {
            Some(items) => match first_failing_item(items, 0, depth) {
                Some(i) => seq![StepView::Index(i)] + trace_spec(items[i as int], depth),
                None => Seq::empty(),
            },
            None => Seq::empty(),
        }
    } else if tag == "Node"@ {
        properties_trace_spec(payload, true, depth)
    } else if tag == "Relationship"@ {
        properties_trace_spec(payload, false, depth)
    } else if tag == "Path"@ {
        match items_of(payload) {
            Some(items) => if items.len() % 2 == 0 {
                Seq::empty()
            } else {
                match first_failing_element(items, 0, depth) {
                    Some(i) => seq![StepView::Index(i)] + element_trace_spec(
                        items[i as int],
                        i,
                        depth,
                    ),
                    None => Seq::empty(),
                }
            },
            None => Seq::empty(),
        }
    } else {
        Seq::empty()
    }
}

/// The same for the members of a Map payload, or of the properties of a
/// node or relationship.
pub open spec fn members_trace_spec(members: Seq<Member>, depth: nat) -> Seq<StepView>
    decreases depth, 1nat,
{
    match first_failing_member(members, 0, depth) {
        Some(i) => seq![StepView::Key(members[i as int].key@)] + trace_spec(
            members[i as int].value,
            depth,
        ),
        None => Seq::empty(),
    }
}

/// The same for the payload of a Node (`node` is true) or of a
/// Relationship: through `_properties`, where a property is what fails.
pub open spec fn properties_trace_spec(payload: Json, node: bool, depth: nat) -> Seq<StepView>
    decreases depth, 2nat,
{
    match members_of(payload) {
        Some(members) => match members_field(members, "_properties"@) {
            Some(properties) => {
                let framed = if node {
                    node_frame(members)
                } else {
                    relationship_frame(members)
                };
                if framed && first_failing_member(properties, 0, depth) is Some {
                    seq![StepView::Key("_properties"@)] + members_trace_spec(properties, depth)
                } else {
                    Seq::empty()
                }
            },
            None => Seq::empty(),
        },
        None => Seq::empty(),
    }
}

/// The same for the path element at `index`.
pub open spec fn element_trace_spec(item: Json, index: nat, limit: nat) -> Seq<StepView>
    decreases limit, 0nat,
{
    if limit == 0 {
        Seq::empty()
    } else if index % 2 == 0 {
        match path_element_spec(item, "Node"@) {
            Ok(payload) => properties_trace_spec(payload, true, (limit - 1) as nat),
            Err(_) => Seq::empty(),
        }
    } else {
        match path_element_spec(item, "Relationship"@) {
            Ok(payload) => properties_trace_spec(payload, false, (limit - 1) as nat),
            Err(_) => Seq::empty(),
        }
    }
}

/// The discriminator of an envelope, where it is one.
pub open spec fn tag_of(json: Json) -> Option<Seq<char>> {
    match envelope_of(json) {
        Ok((tag, _)) => Some(tag),
        Err(_) => None,
    }
}

/// The discriminator of the envelope that `trace_spec` leads to, where that
/// is an envelope with a discriminator.
pub open spec fn culprit_spec(json: Json, limit: nat) -> Option<Seq<char>>
    decreases limit, 0nat,
{
    if limit == 0 {
        tag_of(json)
    } else {
        match envelope_of(json) {
            Ok((tag, payload)) => payload_culprit_spec(tag, payload, (limit - 1) as nat),
            Err(_) => None,
        }
    }
}

/// The same for a payload under its discriminator.
pub open spec fn payload_culprit_spec(tag: Seq<char>, payload: Json, depth: nat) -> Option<
    Seq<char>,
>
    decreases depth, 3nat,
{
    if is_text_kind(tag) || tag == "Boolean"@ || tag == "ByteArray"@ {
        Some(tag)
    } else if tag == "Map"@ {
        match members_of(payload) {
            Some(members) => members_culprit_spec(members, depth, tag),
            None => Some(tag),
        }
    } else if tag == "List"@ {
        match items_of(payload) {
            Some(items) => match first_failing_item(items, 0, depth) {
                Some(i) => culprit_spec(items[i as int], depth),
                None => Some(tag),
            },
            None => Some(tag),
        }
    } else if tag == "Node"@ {
        properties_culprit_spec(payload, true, depth, tag)
    } else if tag == "Relationship"@ {
        properties_culprit_spec(payload, false, depth, tag)
    } else if tag == "Path"@ {
        match items_of(payload) {
            Some(items) => if items.len() % 2 == 0 {
                Some(tag)
            } else {
                match first_failing_element(items, 0, depth) {
                    Some(i) => element_culprit_spec(items[i as int], i, depth),
                    None => Some(tag),
                }
            },
            None => Some(tag),
        }
    } else {
        Some(tag)
    }
}

/// The same for the members of a mapping that stands in an envelope with
/// the discriminator `own`.
pub open spec fn members_culprit_spec(members: Seq<Member>, depth: nat, own: Seq<char>) -> Option<
    Seq<char>,
>
    decreases depth, 1nat,
{
    match first_failing_member(members, 0, depth) {
        Some(i) => culprit_spec(members[i as int].value, depth),
        None => Some(own),
    }
}

/// The same for the payload of a node or relationship.
pub open spec fn properties_culprit_spec(
    payload: Json,
    node: bool,
    depth: nat,
    own: Seq<char>,
) -> Option<Seq<char>>
    decreases depth, 2nat,
{
    match members_of(payload) {
        Some(members) => match members_field(members, "_properties"@) {
            Some(properties) => {
                let framed = if node {
                    node_frame(members)
                } else {
                    relationship_frame(members)
                };
                if framed {
                    members_culprit_spec(properties, depth, own)
                } else {
                    Some(own)
                }
            },
            None => Some(own),
        },
        None => Some(own),
    }
}

/// The same for the path element at `index`.
pub open spec fn element_culprit_spec(item: Json, index: nat, limit: nat) -> Option<Seq<char>>
    decreases limit, 0nat,
{
    if limit == 0 {
        tag_of(item)
    } else {
        match envelope_of(item) {
            Ok((tag, payload)) => if index % 2 == 0 && tag == "Node"@ {
                properties_culprit_spec(payload, true, (limit - 1) as nat, tag)
            } else if index % 2 == 1 && tag == "Relationship"@ {
                properties_culprit_spec(payload, false, (limit - 1) as nat, tag)
            } else {
                Some(tag)
            },
            Err(_) => None,
        }
    }
}

/// The characters of an optional string.
pub open spec fn name_view(name: Option<String>) -> Option<Seq<char>> {
    match name {
        Some(s) => Some(s@),
        None => None,
    }
}

/// A decoding failure: the error, the way to the innermost envelope that
/// caused it, and the discriminator of that envelope where it has one.
#[derive(Debug, PartialEq, Eq)]
pub struct Failure {
    pub error: DecodeError,
    pub kind: Option<String>,
    pub path: Vec<Step>,
}

/// Finds the first item that does not decode.
fn failing_item(items: &Vec<Json>, depth: usize) -> (r: Option<usize>)
    ensures
        match r {
            Some(i) => i < items.len() && first_failing_item(items@, 0, depth as nat) == Some(
                i as nat,
            ),
            None => first_failing_item(items@, 0, depth as nat).is_none(),
        },
{
    let mut i: usize = 0;
    while i < items.len()
        invariant
            i <= items.len(),
            first_failing_item(items@, 0, depth as nat) == first_failing_item(
                items@,
                i as nat,
                depth as nat,
            ),
        decreases items.len() - i,
    {
        let r = decode_with_limit(&items[i], depth);
        assert(outcome_view(r) is Err <==> r is Err);
        if r.is_err() {
            return Some(i);
        }
        i += 1;
    }
    None
}

/// Finds the first member whose value does not decode.
fn failing_member(members: &Vec<Member>, depth: usize) -> (r: Option<usize>)
    ensures
        match r {
            Some(i) => i < members.len() && first_failing_member(members@, 0, depth as nat)
                == Some(i as nat),
            None => first_failing_member(members@, 0, depth as nat).is_none(),
        },
{
    let mut i: usize = 0;
    while i < members.len()
        invariant
            i <= members.len(),
            first_failing_member(members@, 0, depth as nat) == first_failing_member(
                members@,
                i as nat,
                depth as nat,
            ),
        decreases members.len() - i,
    {
        let r = decode_with_limit(&members[i].value, depth);
        assert(outcome_view(r) is Err <==> r is Err);
        if r.is_err() {
            return Some(i);
        }
        i += 1;
    }
    None
}

/// Whether the path element at `index` does not decode.
fn element_fails(item: &Json, index: usize, depth: usize) -> (r: bool)
    ensures
        r == path_element_fails(*item, index as nat, depth as nat),
{
    if depth == 0 {
        return true;
    }
    if index % 2 == 0 {
        match open_path_element(item, "Node") {
            Ok(payload) => decode_node(payload, depth - 1).is_err(),
            Err(_) => true,
        }
    } else {
        match open_path_element(item, "Relationship") {
            Ok(payload) => decode_relationship(payload, depth - 1).is_err(),
            Err(_) => true,
        }
    }
}

/// Finds the first path element that does not decode.
fn failing_element(items: &Vec<Json>, depth: usize) -> (r: Option<usize>)
    ensures
        match r {
            Some(i) => i < items.len() && first_failing_element(items@, 0, depth as nat) == Some(
                i as nat,
            ),
            None => first_failing_element(items@, 0, depth as nat).is_none(),
        },
{
    let mut i: usize = 0;
    while i < items.len()
        invariant
            i <= items.len(),
            first_failing_element(items@, 0, depth as nat) == first_failing_element(
                items@,
                i as nat,
                depth as nat,
            ),
        decreases items.len() - i,
    {
        if element_fails(&items[i], i, depth) {
            return Some(i);
        }
        i += 1;
    }
    None
}

/// Whether the fields of a Node payload other than its properties are in
/// order.
fn check_node_frame(members: &Vec<Member>) -> (r: bool)
    ensures
        r == node_frame(members@),
{
    match find_items(members, "_labels") {
        Some(labels) => decode_labels(labels).is_ok() && find_text(members, "_element_id").is_some(),
        None => false,
    }
}

/// Whether the fields of a Relationship payload other than its properties
/// are in order.
fn check_relationship_frame(members: &Vec<Member>) -> (r: bool)
    ensures
        r == relationship_frame(members@),
{
    find_text(members, "_type").is_some() && find_text(members, "_element_id").is_some()
        && find_text(members, "_start_node_element_id").is_some() && find_text(
        members,
        "_end_node_element_id",
    ).is_some()
}

/// Appends a step to the way so far.
fn push_step(out: &mut Vec<Step>, step: Step)
    ensures
        steps_view(final(out)@) == steps_view(old(out)@).push(step_view(step)),
{
    out.push(step);
    assert(steps_view(out@) =~= steps_view(old(out)@).push(step_view(step)));
}

/// The discriminator of an envelope, where it is one.
fn own_tag(json: &Json) -> (r: Option<String>)
    ensures
        name_view(r) == tag_of(*json),
{
    match open_envelope(json) {
        Ok((tag, _)) => Some(tag.to_owned()),
        Err(_) => None,
    }
}

/// Appends the way from `json` to what makes it fail, and names the
/// discriminator found at its end.
fn trace_into(json: &Json, limit: usize, out: &mut Vec<Step>) -> (kind: Option<String>)
    ensures
        steps_view(final(out)@) == steps_view(old(out)@) + trace_spec(*json, limit as nat),
        name_view(kind) == culprit_spec(*json, limit as nat),
    decreases limit, 0nat,
{
    assert(steps_view(out@) + Seq::<StepView>::empty() =~= steps_view(out@));
    if limit == 0 {
        return own_tag(json);
    }
    match open_envelope(json) {
        Ok((tag, payload)) => payload_trace_into(tag, payload, limit - 1, out),
        Err(_) => None,
    }
}

/// The same for a payload under its discriminator.
fn payload_trace_into(tag: &str, payload: &Json, depth: usize, out: &mut Vec<Step>) -> (kind:
    Option<String>)
    ensures
        steps_view(final(out)@) == steps_view(old(out)@) + payload_trace_spec(
            tag@,
            *payload,
            depth as nat,
        ),
        name_view(kind) == payload_culprit_spec(tag@, *payload, depth as nat),
    decreases depth, 3nat,
{
    let ghost before = steps_view(out@);
    assert(before + Seq::<StepView>::empty() =~= before);
    if crate::decode::text_kind(tag) || str_eq(tag, "Boolean") || str_eq(tag, "ByteArray") {
        Some(tag.to_owned())
    } else if str_eq(tag, "Map") {
        match json_members(payload) {
            Some(members) => members_trace_into(members, depth, tag, out),
            None => Some(tag.to_owned()),
        }
    } else if str_eq(tag, "List") {
        match json_items(payload) {
            Some(items) => match failing_item(items, depth) {
                Some(i) => {
                    push_step(out, Step::Index(i));
                    let kind = trace_into(&items[i], depth, out);
                    assert(before.push(StepView::Index(i as nat)) + trace_spec(
                        items@[i as int],
                        depth as nat,
                    ) =~= before + (seq![StepView::Index(i as nat)] + trace_spec(
                        items@[i as int],
                        depth as nat,
                    )));
                    kind
                },
                None => Some(tag.to_owned()),
            },
            None => Some(tag.to_owned()),
        }
    } else if str_eq(tag, "Node") {
        properties_trace_into(payload, true, depth, tag, out)
    } else if str_eq(tag, "Relationship") {
        properties_trace_into(payload, false, depth, tag, out)
    } else if str_eq(tag, "Path") {
        match json_items(payload) {
            Some(items) => {
                if items.len() % 2 == 1 {
                    match failing_element(items, depth) {
                        Some(i) => {
                            push_step(out, Step::Index(i));
                            let kind = element_trace_into(&items[i], i, depth, out);
                            assert(before.push(StepView::Index(i as nat)) + element_trace_spec(
                                items@[i as int],
                                i as nat,
                                depth as nat,
                            ) =~= before + (seq![StepView::Index(i as nat)] + element_trace_spec(
                                items@[i as int],
                                i as nat,
                                depth as nat,
                            )));
                            kind
                        },
                        None => Some(tag.to_owned()),
                    }
                } else {
                    Some(tag.to_owned())
                }
            },
            None => Some(tag.to_owned()),
        }
    } else {
        Some(tag.to_owned())
    }
}

/// The same for the members of a mapping that stands in an envelope with
/// the discriminator `own`.
fn members_trace_into(members: &Vec<Member>, depth: usize, own: &str, out: &mut Vec<Step>) -> (kind:
    Option<String>)
    ensures
        steps_view(final(out)@) == steps_view(old(out)@) + members_trace_spec(
            members@,
            depth as nat,
        ),
        name_view(kind) == members_culprit_spec(members@, depth as nat, own@),
    decreases depth, 1nat,
{
    let ghost before = steps_view(out@);
    assert(before + Seq::<StepView>::empty() =~= before);
    match failing_member(members, depth) {
        Some(i) => {
            let ghost key = StepView::Key(members@[i as int].key@);
            push_step(out, Step::Key(members[i].key.clone()));
            let kind = trace_into(&members[i].value, depth, out);
            assert(before.push(key) + trace_spec(members@[i as int].value, depth as nat)
                =~= before + (seq![key] + trace_spec(members@[i as int].value, depth as nat)));
            kind
        },
        None => Some(own.to_owned()),
    }
}

/// The same for the payload of a node or relationship.
fn properties_trace_into(
    payload: &Json,
    node: bool,
    depth: usize,
    own: &str,
    out: &mut Vec<Step>,
) -> (kind: Option<String>)
    ensures
        steps_view(final(out)@) == steps_view(old(out)@) + properties_trace_spec(
            *payload,
            node,
            depth as nat,
        ),
        name_view(kind) == properties_culprit_spec(*payload, node, depth as nat, own@),
    decreases depth, 2nat,
{
    let ghost before = steps_view(out@);
    assert(before + Seq::<StepView>::empty() =~= before);
    match json_members(payload) {
        Some(members) => match find_members(members, "_properties") {
            Some(properties) => {
                let framed: bool = if node {
                    check_node_frame(members)
                } else {
                    check_relationship_frame(members)
                };
                if framed && failing_member(properties, depth).is_some() {
                    let ghost key = StepView::Key("_properties"@);
                    push_step(out, Step::Key("_properties".to_owned()));
                    let kind = members_trace_into(properties, depth, own, out);
                    assert(before.push(key) + members_trace_spec(properties@, depth as nat)
                        =~= before + (seq![key] + members_trace_spec(properties@, depth as nat)));
                    kind
                } else {
                    Some(own.to_owned())
                }
            },
            None => Some(own.to_owned()),
        },
        None => Some(own.to_owned()),
    }
}

/// The same for the path element at `index`.
fn element_trace_into(item: &Json, index: usize, limit: usize, out: &mut Vec<Step>) -> (kind:
    Option<String>)
    ensures
        steps_view(final(out)@) == steps_view(old(out)@) + element_trace_spec(
            *item,
            index as nat,
            limit as nat,
        ),
        name_view(kind) == element_culprit_spec(*item, index as nat, limit as nat),
    decreases limit, 0nat,
{
    assert(steps_view(out@) + Seq::<StepView>::empty() =~= steps_view(out@));
    if limit == 0 {
        return own_tag(item);
    }
    match open_envelope(item) {
        Ok((tag, payload)) => {
            if index % 2 == 0 && str_eq(tag, "Node") {
                properties_trace_into(payload, true, limit - 1, tag, out)
            } else if index % 2 == 1 && str_eq(tag, "Relationship") {
                properties_trace_into(payload, false, limit - 1, tag, out)
            } else {
                Some(tag.to_owned())
            }
        },
        Err(_) => None,
    }
}

/// Where a failure lies: the way from an envelope to the innermost envelope
/// that makes decoding fail, one step for each container on the way, and
/// the discriminator of that envelope where it has one.
pub fn locate(json: &Json, limit: usize) -> (r: (Vec<Step>, Option<String>))
    ensures
        steps_view(r.0@) == trace_spec(*json, limit as nat),
        name_view(r.1) == culprit_spec(*json, limit as nat),
{
    let mut out: Vec<Step> = Vec::new();
    assert(steps_view(out@) =~= Seq::<StepView>::empty());
    let kind = trace_into(json, limit, &mut out);
    assert(Seq::<StepView>::empty() + trace_spec(*json, limit as nat) =~= trace_spec(
        *json,
        limit as nat,
    ));
    (out, kind)
}

/// The model of a located failure.
pub struct FailureView {
    pub error: DecodeError,
    pub kind: Option<Seq<char>>,
    pub path: Seq<StepView>,
}

/// The model of a result that may carry a located failure.
pub open spec fn located_view(r: Result<Val, Failure>) -> Result<crate::value::ValView, FailureView> {
    match r {
        Ok(v) => Ok(crate::value::val_view(v)),
        Err(f) => Err(
            FailureView { error: f.error, kind: name_view(f.kind), path: steps_view(f.path@) },
        ),
    }
}

/// What decoding with a located failure gives: the value, or the error
/// together with where it lies.
pub open spec fn decode_located_spec(json: Json, limit: nat) -> Result<
    crate::value::ValView,
    FailureView,
> {
    match decode_spec(json, limit) {
        Ok(v) => Ok(v),
        Err(e) => Err(
            FailureView {
                error: e,
                kind: culprit_spec(json, limit),
                path: trace_spec(json, limit),
            },
        ),
    }
}

/// Decodes one envelope as `decode_with_limit` does and, where that fails,
/// says where in the input the failure lies.
pub fn decode_located(json: &Json, limit: usize) -> (r: Result<Val, Failure>)
    ensures
        located_view(r) == decode_located_spec(*json, limit as nat),
{
    match decode_with_limit(json, limit) {
        Ok(v) => Ok(v),
        Err(error) => {
            let (path, kind) = locate(json, limit);
            Err(Failure { error, kind, path })
        },
    }
}

} // verus!
