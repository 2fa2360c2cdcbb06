//! Templates: JSON documents in which marked keys hold generator calls.

use vstd::prelude::*;
use vstd::string::*;
use crate::call::{Call, CallView};
use crate::error::{result_view, Fault, GenError, GenErrorType};
use crate::json::{Json, JsonView, MemberView};
use crate::parser::{parse_call, parsed_call};
use crate::reader::{read_json, read_json_spec};
use crate::text::{chars_of, starts_with, text_of};

verus! {

/// A node of a template.
#[derive(Debug, PartialEq, Eq)]
pub enum Node {
    /// A value without marked keys beneath it: it goes into every document
    /// as it stands.
    Literal(Json),
    /// An object with a marked key in it or beneath it.
    Object(Vec<Field>),
    /// An array with a marked key beneath it.
    Array(Vec<Node>),
    /// The call that a marked key holds.
    Call(Call),
}

/// One member of a template object.
#[derive(Debug, PartialEq, Eq)]
pub struct Field {
    /// The key as it goes into a document: without the marker. Two fields
    /// of one object may come to carry one key; both are kept.
    pub key: String,
    /// Whether the key was marked.
    pub is_generator: bool,
    /// A `Node::Call` where the key was marked, else the member's value.
    pub child: Node,
}

/// The mathematical value of a `Node`.
pub enum NodeView {
    Literal(JsonView),
    Object(Seq<FieldView>),
    Array(Seq<NodeView>),
    Call(CallView),
}

/// The mathematical value of a `Field`.
pub struct FieldView {
    pub key: Seq<char>,
    pub is_generator: bool,
    pub child: NodeView,
}

/// What a node stands for in contracts.
pub open spec fn node_view(node: Node) -> NodeView
    decreases node,
{
    match node {
        Node::Literal(json) => NodeView::Literal(json@),
        Node::Object(fields) => NodeView::Object(
            Seq::new(
                fields@.len(),
                |i: int|
                    if 0 <= i < fields@.len() {
                        FieldView {
                            key: fields@[i].key@,
                            is_generator: fields@[i].is_generator,
                            child: node_view(fields@[i].child),
                        }
                    } else {
                        FieldView {
                            key: Seq::empty(),
                            is_generator: false,
                            child: NodeView::Literal(JsonView::Null),
                        }
                    },
            ),
        ),
        Node::Array(nodes) => NodeView::Array(
            Seq::new(
                nodes@.len(),
                |i: int|
                    if 0 <= i < nodes@.len() {
                        node_view(nodes@[i])
                    } else {
                        NodeView::Literal(JsonView::Null)
                    },
            ),
        ),
        Node::Call(call) => NodeView::Call(call@),
    }
}

impl View for Node {
    type V = NodeView;

    open spec fn view(&self) -> NodeView {
        node_view(*self)
    }
}

impl View for Field {
    type V = FieldView;

    open spec fn view(&self) -> FieldView {
        FieldView { key: self.key@, is_generator: self.is_generator, child: self.child@ }
    }
}

/// What a list of nodes stands for in contracts.
pub open spec fn nodes_view(nodes: Seq<Node>) -> Seq<NodeView> {
    Seq::new(nodes.len(), |i: int| nodes[i]@)
}

/// What a list of fields stands for in contracts.
pub open spec fn fields_view(fields: Seq<Field>) -> Seq<FieldView> {
    Seq::new(fields.len(), |i: int| fields[i]@)
}

/// Whether a key carries the marker: whether it starts with it.
pub open spec fn is_marked(key: Seq<char>, marker: Seq<char>) -> bool {
    marker.is_prefix_of(key)
}

/// Whether every node is a literal.
pub open spec fn all_literal(nodes: Seq<NodeView>) -> bool {
    forall|i: int| 0 <= i < nodes.len() ==> (#[trigger] nodes[i]) is Literal
}

/// Whether no field is a generator and every field holds a literal.
pub open spec fn all_plain(fields: Seq<FieldView>) -> bool {
    forall|i: int|
        0 <= i < fields.len() ==> !(#[trigger] fields[i]).is_generator && fields[i].child is Literal
}

/// Whether no key in a value or beneath it carries the marker.
pub open spec fn has_no_marked_key(json: JsonView, marker: Seq<char>) -> bool
    decreases json,
{
    match json {
        JsonView::Array(items) => forall|i: int|
            0 <= i < items.len() ==> has_no_marked_key(#[trigger] items[i], marker),
        JsonView::Object(members) => forall|i: int|
            0 <= i < members.len() ==> !is_marked((#[trigger] members[i]).key, marker)
                && has_no_marked_key(members[i].value, marker),
        _ => true,
    }
}

/// The failure for a marked key whose value is no string.
pub open spec fn not_text_fault(key: Seq<char>) -> Fault {
    Fault {
        reason: "the value of the generator field '"@ + key
            + "' must be a string that holds a generator call"@,
        tpe: GenErrorType::Parser,
    }
}

/// The failure for a marked key whose string is no generator call.
pub open spec fn bad_call_fault(key: Seq<char>, complaint: Seq<char>) -> Fault {
    Fault {
        reason: "the generator field '"@ + key + "' is malformed: "@ + complaint,
        tpe: GenErrorType::Parser,
    }
}

/// The field for a marked key: the key without the marker, and the call
/// that the value holds.
pub open spec fn generator_field(key: Seq<char>, value: JsonView, marker: Seq<char>) -> Result<
    FieldView,
    Fault,
> {
    match value {
        JsonView::Text(text) => match parsed_call(text) {
            Ok(call) => Ok(
                FieldView {
                    key: key.skip(marker.len() as int),
                    is_generator: true,
                    child: NodeView::Call(call),
                },
            ),
            Err(fault) => Err(bad_call_fault(key, fault.reason)),
        },
        _ => Err(not_text_fault(key)),
    }
}

/// The template node for a JSON value. A value without marked keys beneath
/// it is one literal; an object or array above a marked key is kept member
/// by member. The first failure, in the order of the text, is the result.
pub open spec fn node_of(json: JsonView, marker: Seq<char>) -> Result<NodeView, Fault>
    decreases json,
{
    match json {
        JsonView::Array(items) => match nodes_of(items, marker) {
            Ok(nodes) => if all_literal(nodes) {
                Ok(NodeView::Literal(json))
            } else {
                Ok(NodeView::Array(nodes))
            },
            Err(fault) => Err(fault),
        },
        JsonView::Object(members) => match fields_of(members, marker) {
            Ok(fields) => if all_plain(fields) {
                Ok(NodeView::Literal(json))
            } else {
                Ok(NodeView::Object(fields))
            },
            Err(fault) => Err(fault),
        },
        _ => Ok(NodeView::Literal(json)),
    }
}

/// The template nodes for the items of an array.
pub open spec fn nodes_of(items: Seq<JsonView>, marker: Seq<char>) -> Result<
    Seq<NodeView>,
    Fault,
>
    decreases items,
{
    if items.len() == 0 {
        Ok(Seq::empty())
    } else {
        match nodes_of(items.drop_last(), marker) {
            Err(fault) => Err(fault),
            Ok(nodes) => match node_of(items.last(), marker) {
                Err(fault) => Err(fault),
                Ok(node) => Ok(nodes.push(node)),
            },
        }
    }
}

/// The template fields for the members of an object.
pub open spec fn fields_of(members: Seq<MemberView>, marker: Seq<char>) -> Result<
    Seq<FieldView>,
    Fault,
>
    decreases members,
{
    if members.len() == 0 {
        Ok(Seq::empty())
    } else {
        match fields_of(members.drop_last(), marker) {
            Err(fault) => Err(fault),
            Ok(fields) => {
                let key = members.last().key;
                if is_marked(key, marker) {
                    match generator_field(key, members.last().value, marker) {
                        Err(fault) => Err(fault),
                        Ok(field) => Ok(fields.push(field)),
                    }
                } else {
                    match node_of(members.last().value, marker) {
                        Err(fault) => Err(fault),
                        Ok(child) => Ok(
                            fields.push(FieldView { key, is_generator: false, child }),
                        ),
                    }
                }
            },
        }
    }
}

/// Once a prefix of the items has failed, the whole list fails alike.
proof fn lemma_nodes_fault(items: Seq<JsonView>, k: int, marker: Seq<char>)
    requires
        0 <= k <= items.len(),
        nodes_of(items.take(k), marker) is Err,
    ensures
        nodes_of(items, marker) == nodes_of(items.take(k), marker),
    decreases items.len(),
{
    if k == items.len() {
        assert(items.take(k) =~= items);
    } else {
        assert(items.drop_last().take(k) =~= items.take(k));
        lemma_nodes_fault(items.drop_last(), k, marker);
    }
}

/// Once a prefix of the members has failed, the whole list fails alike.
proof fn lemma_fields_fault(members: Seq<MemberView>, k: int, marker: Seq<char>)
    requires
        0 <= k <= members.len(),
        fields_of(members.take(k), marker) is Err,
    ensures
        fields_of(members, marker) == fields_of(members.take(k), marker),
    decreases members.len(),
{
    if k == members.len() {
        assert(members.take(k) =~= members);
    } else {
        assert(members.drop_last().take(k) =~= members.take(k));
        lemma_fields_fault(members.drop_last(), k, marker);
    }
}

/// Builds the field for a marked key.
fn build_generator_field(key: &String, value: &Json, marker: &Vec<char>) -> (r: Result<
    Field,
    GenError,
>)
    requires
        is_marked(key@, marker@),
    ensures
        result_view(r) == generator_field(key@, value@, marker@),
{
    match value {
        Json::Text(text) => match parse_call(text.as_str()) {
            Ok(call) => {
                let chars = chars_of(key.as_str());
                let bare = text_of(&chars, marker.len(), chars.len());
                assert(bare@ =~= key@.skip(marker@.len() as int));
                Ok(Field { key: bare, is_generator: true, child: Node::Call(call) })
            },
            Err(e) => {
                let reason = String::from_str("the generator field '").concat(
                    key.as_str(),
                ).concat("' is malformed: ").concat(e.reason());
                Err(GenError::new_with_in_parser(reason.as_str()))
            },
        },
        _ => {
            let reason = String::from_str("the value of the generator field '").concat(
                key.as_str(),
            ).concat("' must be a string that holds a generator call");
            Err(GenError::new_with_in_parser(reason.as_str()))
        },
    }
}

/// Builds the template node for a JSON value.
fn build_node(json: &Json, marker: &Vec<char>) -> (r: Result<Node, GenError>)
    ensures
        result_view(r) == node_of(json@, marker@),
    decreases json,
{
    match json {
        Json::Array(items) => {
            let ghost views = json@->Array_0;
            let mut nodes: Vec<Node> = Vec::new();
            let mut literal = true;
            let mut i: usize = 0;
            assert(views.take(0) =~= Seq::empty());
            assert(nodes_view(nodes@) =~= Seq::empty());
            while i < items.len()
                invariant
                    i <= items.len(),
                    *json == Json::Array(*items),
                    views == json@->Array_0,
                    nodes_of(views.take(i as int), marker@) == Ok::<Seq<NodeView>, Fault>(
                        nodes_view(nodes@),
                    ),
                    literal == all_literal(nodes_view(nodes@)),
                decreases items.len() - i,
            {
                let ghost held = nodes_view(nodes@);
                proof {
                    assert(views.take(i + 1).drop_last() =~= views.take(i as int));
                    assert(views.take(i + 1).last() == items@[i as int]@);
                    assert(decreases_to!(*json => json->Array_0));
                }
                match build_node(&items[i], marker) {
                    Err(e) => {
                        proof {
                            lemma_nodes_fault(views, i + 1, marker@);
                        }
                        return Err(e);
                    },
                    Ok(node) => {
                        let plain = match &node {
                            Node::Literal(_) => true,
                            _ => false,
                        };
                        let ghost added = node@;
                        nodes.push(node);
                        proof {
                            assert(nodes_view(nodes@) =~= held.push(added));
                            if literal && plain {
                                assert forall|k: int| 0 <= k < held.len() + 1 implies (
                                #[trigger] held.push(added)[k]) is Literal by {
                                    if k < held.len() {
                                        assert(held[k] is Literal);
                                    }
                                }
                            } else if !plain {
                                assert(!(held.push(added)[held.len() as int] is Literal));
                            } else {
                                let bad = choose|k: int|
                                    0 <= k < held.len() && !((#[trigger] held[k]) is Literal);
                                assert(!(held.push(added)[bad] is Literal));
                            }
                        }
                        literal = literal && plain;
                    },
                }
                i += 1;
            }
            assert(views.take(i as int) =~= views);
            if literal {
                Ok(Node::Literal(json.duplicate()))
            } else {
                let node = Node::Array(nodes);
                assert(node@->Array_0 =~= nodes_view(nodes@));
                Ok(node)
            }
        },
        Json::Object(members) => {
            let ghost views = json@->Object_0;
            let mut fields: Vec<Field> = Vec::new();
            let mut plain_so_far = true;
            let mut i: usize = 0;
            assert(views.take(0) =~= Seq::empty());
            assert(fields_view(fields@) =~= Seq::empty());
            while i < members.len()
                invariant
                    i <= members.len(),
                    *json == Json::Object(*members),
                    views == json@->Object_0,
                    fields_of(views.take(i as int), marker@) == Ok::<Seq<FieldView>, Fault>(
                        fields_view(fields@),
                    ),
                    plain_so_far == all_plain(fields_view(fields@)),
                decreases members.len() - i,
            {
                let ghost held = fields_view(fields@);
                proof {
                    assert(views.take(i + 1).drop_last() =~= views.take(i as int));
                    assert(views.take(i + 1).last() == members@[i as int]@);
                    assert(decreases_to!(*json => json->Object_0));
                    assert(decreases_to!(members[i as int] => members[i as int].value));
                }
                let member = &members[i];
                let key_chars = chars_of(member.key.as_str());
                let built = if starts_with(&key_chars, marker) {
                    build_generator_field(&member.key, &member.value, marker)
                } else {
                    match build_node(&member.value, marker) {
                        Ok(child) => Ok(
                            Field { key: member.key.clone(), is_generator: false, child },
                        ),
                        Err(e) => Err(e),
                    }
                };
                match built {
                    Err(e) => {
                        proof {
                            lemma_fields_fault(views, i + 1, marker@);
                        }
                        return Err(e);
                    },
                    Ok(field) => {
                        let plain = !field.is_generator && match &field.child {
                            Node::Literal(_) => true,
                            _ => false,
                        };
                        let ghost added = field@;
                        fields.push(field);
                        proof {
                            assert(fields_view(fields@) =~= held.push(added));
                            if plain_so_far && plain {
                                assert forall|k: int| 0 <= k < held.len() + 1 implies !(
                                #[trigger] held.push(added)[k]).is_generator && held.push(
                                    added,
                                )[k].child is Literal by {
                                    if k < held.len() {
                                        assert(!held[k].is_generator);
                                    }
                                }
                            } else if !plain {
                                let last = held.push(added)[held.len() as int];
                                assert(last.is_generator || !(last.child is Literal));
                            } else {
                                let bad = choose|k: int|
                                    0 <= k < held.len() && !(!(#[trigger] held[k]).is_generator
                                        && held[k].child is Literal);
                                let kept = held.push(added)[bad];
                                assert(kept.is_generator || !(kept.child is Literal));
                            }
                        }
                        plain_so_far = plain_so_far && plain;
                    },
                }
                i += 1;
            }
            assert(views.take(i as int) =~= views);
            if plain_so_far {
                Ok(Node::Literal(json.duplicate()))
            } else {
                let node = Node::Object(fields);
                assert(node@->Object_0 =~= fields_view(fields@));
                Ok(node)
            }
        },
        _ => Ok(Node::Literal(json.duplicate())),
    }
}

/// A parsed template: built once, then read for every document.
#[derive(Debug, PartialEq, Eq)]
pub struct JsonTemplate {
    root: Node,
}

impl View for JsonTemplate {
    type V = NodeView;

    closed spec fn view(&self) -> NodeView {
        self.root@
    }
}

/// What parsing a template text gives: the template of the JSON value that
/// the text denotes.
pub open spec fn template_of_text(text: Seq<char>, marker: Seq<char>) -> Result<NodeView, Fault> {
    match read_json_spec(text) {
        Ok(json) => node_of(json, marker),
        Err(fault) => Err(fault),
    }
}

impl JsonTemplate {
    /// The template that a JSON value describes: each key that starts with
    /// `marker` holds a generator call, which is parsed here, once.
    pub fn from_json(json: &Json, marker: &str) -> (r: Result<JsonTemplate, GenError>)
        ensures
            result_view(r) == node_of(json@, marker@),
    {
        let marker_chars = chars_of(marker);
        match build_node(json, &marker_chars) {
            Ok(root) => Ok(JsonTemplate { root }),
            Err(e) => Err(e),
        }
    }

    /// The template that a JSON text describes.
    pub fn from_str(text: &str, marker: &str) -> (r: Result<JsonTemplate, GenError>)
        ensures
            result_view(r) == template_of_text(text@, marker@),
    {
        match read_json(text) {
            Ok(json) => JsonTemplate::from_json(&json, marker),
            Err(e) => Err(e),
        }
    }

    /// The root of the template.
    pub fn root(&self) -> (node: &Node)
        ensures
            node@ == self@,
    {
        &self.root
    }
}

} // verus!
