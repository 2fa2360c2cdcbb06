//! The generation of documents from a template.

use vstd::prelude::*;
use crate::error::{result_view, Fault, GenError};
use crate::evaluator::{
    eval_call, evaluate, lemma_call_advances, lemma_call_frame, same_words, Step,
};
use crate::json::{Json, JsonView, Member, MemberView};
use crate::random::RandomSource;
use crate::registry::{values_view, FunctionSpecView, Registry};
use crate::json_template::{FieldView, JsonTemplate, Node, NodeView};

verus! {

/// The document that a template node gives for the words on the tape: a
/// literal gives itself, a call what it evaluates to, an object or array
/// what its members give, in their order and under their keys.
pub open spec fn render_node(
    node: NodeView,
    table: Seq<FunctionSpecView>,
    tape: Seq<u64>,
    at: int,
) -> Step<JsonView>
    decreases node,
{
    match node {
        NodeView::Literal(json) => Step { value: Ok(json), at },
        NodeView::Call(call) => eval_call(call, table, tape, at),
        NodeView::Array(nodes) => {
            let rendered = render_nodes(nodes, table, tape, at);
            match rendered.value {
                Ok(items) => Step { value: Ok(JsonView::Array(items)), at: rendered.at },
                Err(fault) => Step { value: Err(fault), at: rendered.at },
            }
        },
        NodeView::Object(fields) => {
            let rendered = render_fields(fields, table, tape, at);
            match rendered.value {
                Ok(members) => Step { value: Ok(JsonView::Object(members)), at: rendered.at },
                Err(fault) => Step { value: Err(fault), at: rendered.at },
            }
        },
    }
}

/// What the nodes of an array give, from left to right. The first failure
/// ends it.
pub open spec fn render_nodes(
    nodes: Seq<NodeView>,
    table: Seq<FunctionSpecView>,
    tape: Seq<u64>,
    at: int,
) -> Step<Seq<JsonView>>
    decreases nodes,
{
    if nodes.len() == 0 {
        Step { value: Ok(Seq::empty()), at }
    } else {
        let before = render_nodes(nodes.drop_last(), table, tape, at);
        match before.value {
            Err(fault) => Step { value: Err(fault), at: before.at },
            Ok(items) => {
                let last = render_node(nodes.last(), table, tape, before.at);
                match last.value {
                    Err(fault) => Step { value: Err(fault), at: last.at },
                    Ok(item) => Step { value: Ok(items.push(item)), at: last.at },
                }
            },
        }
    }
}

/// What the fields of an object give, from first to last. The first
/// failure ends it.
pub open spec fn render_fields(
    fields: Seq<FieldView>,
    table: Seq<FunctionSpecView>,
    tape: Seq<u64>,
    at: int,
) -> Step<Seq<MemberView>>
    decreases fields,
{
    if fields.len() == 0 {
        Step { value: Ok(Seq::empty()), at }
    } else {
        let before = render_fields(fields.drop_last(), table, tape, at);
        match before.value {
            Err(fault) => Step { value: Err(fault), at: before.at },
            Ok(members) => {
                let last = render_node(fields.last().child, table, tape, before.at);
                match last.value {
                    Err(fault) => Step { value: Err(fault), at: last.at },
                    Ok(value) => Step {
                        value: Ok(members.push(MemberView { key: fields.last().key, value })),
                        at: last.at,
                    },
                }
            },
        }
    }
}

/// The documents of a run: `repeat` times what the template gives, each
/// from the words behind those that the one before it read. The first
/// failure ends the run.
pub open spec fn generate_spec(
    node: NodeView,
    table: Seq<FunctionSpecView>,
    tape: Seq<u64>,
    at: int,
    repeat: nat,
) -> Step<Seq<JsonView>>
    decreases repeat,
{
    if repeat == 0 {
        Step { value: Ok(Seq::empty()), at }
    } else {
        let before = generate_spec(node, table, tape, at, (repeat - 1) as nat);
        match before.value {
            Err(fault) => Step { value: Err(fault), at: before.at },
            Ok(documents) => {
                let next = render_node(node, table, tape, before.at);
                match next.value {
                    Err(fault) => Step { value: Err(fault), at: next.at },
                    Ok(document) => Step { value: Ok(documents.push(document)), at: next.at },
                }
            },
        }
    }
}

/// Rendering leaves the place on the tape where it was or further on.
pub proof fn lemma_node_advances(
    node: NodeView,
    table: Seq<FunctionSpecView>,
    tape: Seq<u64>,
    at: int,
)
    ensures
        render_node(node, table, tape, at).at >= at,
    decreases node,
{
    match node {
        NodeView::Literal(_) => {},
        NodeView::Call(call) => lemma_call_advances(call, table, tape, at),
        NodeView::Array(nodes) => lemma_nodes_advance(nodes, table, tape, at),
        NodeView::Object(fields) => lemma_fields_advance(fields, table, tape, at),
    }
}

/// Rendering the nodes of an array leaves the place on the tape where it
/// was or further on.
pub proof fn lemma_nodes_advance(
    nodes: Seq<NodeView>,
    table: Seq<FunctionSpecView>,
    tape: Seq<u64>,
    at: int,
)
    ensures
        render_nodes(nodes, table, tape, at).at >= at,
    decreases nodes,
{
    if nodes.len() > 0 {
        lemma_nodes_advance(nodes.drop_last(), table, tape, at);
        let before = render_nodes(nodes.drop_last(), table, tape, at);
        lemma_node_advances(nodes.last(), table, tape, before.at);
    }
}

/// Rendering the fields of an object leaves the place on the tape where it
/// was or further on.
pub proof fn lemma_fields_advance(
    fields: Seq<FieldView>,
    table: Seq<FunctionSpecView>,
    tape: Seq<u64>,
    at: int,
)
    ensures
        render_fields(fields, table, tape, at).at >= at,
    decreases fields,
{
    if fields.len() > 0 {
        lemma_fields_advance(fields.drop_last(), table, tape, at);
        let before = render_fields(fields.drop_last(), table, tape, at);
        lemma_node_advances(fields.last().child, table, tape, before.at);
    }
}

/// A run leaves the place on the tape where it was or further on.
pub proof fn lemma_generate_advances(
    node: NodeView,
    table: Seq<FunctionSpecView>,
    tape: Seq<u64>,
    at: int,
    repeat: nat,
)
    ensures
        generate_spec(node, table, tape, at, repeat).at >= at,
    decreases repeat,
{
    if repeat > 0 {
        lemma_generate_advances(node, table, tape, at, (repeat - 1) as nat);
        let before = generate_spec(node, table, tape, at, (repeat - 1) as nat);
        lemma_node_advances(node, table, tape, before.at);
    }
}

/// Rendering depends on the tape only through the words it reads.
pub proof fn lemma_node_frame(
    node: NodeView,
    table: Seq<FunctionSpecView>,
    a: Seq<u64>,
    b: Seq<u64>,
    at: int,
)
    requires
        same_words(a, b, at, render_node(node, table, a, at).at),
    ensures
        render_node(node, table, b, at) == render_node(node, table, a, at),
    decreases node,
{
    match node {
        NodeView::Literal(_) => {},
        NodeView::Call(call) => lemma_call_frame(call, table, a, b, at),
        NodeView::Array(nodes) => lemma_nodes_frame(nodes, table, a, b, at),
        NodeView::Object(fields) => lemma_fields_frame(fields, table, a, b, at),
    }
}

/// Rendering the nodes of an array depends on the tape only through the
/// words it reads.
pub proof fn lemma_nodes_frame(
    nodes: Seq<NodeView>,
    table: Seq<FunctionSpecView>,
    a: Seq<u64>,
    b: Seq<u64>,
    at: int,
)
    requires
        same_words(a, b, at, render_nodes(nodes, table, a, at).at),
    ensures
        render_nodes(nodes, table, b, at) == render_nodes(nodes, table, a, at),
    decreases nodes,
{
    if nodes.len() > 0 {
        let before = render_nodes(nodes.drop_last(), table, a, at);
        lemma_nodes_advance(nodes.drop_last(), table, a, at);
        lemma_node_advances(nodes.last(), table, a, before.at);
        lemma_nodes_frame(nodes.drop_last(), table, a, b, at);
        if before.value is Ok {
            lemma_node_frame(nodes.last(), table, a, b, before.at);
        }
    }
}

/// Rendering the fields of an object depends on the tape only through the
/// words it reads.
pub proof fn lemma_fields_frame(
    fields: Seq<FieldView>,
    table: Seq<FunctionSpecView>,
    a: Seq<u64>,
    b: Seq<u64>,
    at: int,
)
    requires
        same_words(a, b, at, render_fields(fields, table, a, at).at),
    ensures
        render_fields(fields, table, b, at) == render_fields(fields, table, a, at),
    decreases fields,
{
    if fields.len() > 0 {
        let before = render_fields(fields.drop_last(), table, a, at);
        lemma_fields_advance(fields.drop_last(), table, a, at);
        lemma_node_advances(fields.last().child, table, a, before.at);
        lemma_fields_frame(fields.drop_last(), table, a, b, at);
        if before.value is Ok {
            lemma_node_frame(fields.last().child, table, a, b, before.at);
        }
    }
}

/// A run depends on the tape only through the words it reads.
pub proof fn lemma_generate_frame(
    node: NodeView,
    table: Seq<FunctionSpecView>,
    a: Seq<u64>,
    b: Seq<u64>,
    at: int,
    repeat: nat,
)
    requires
        same_words(a, b, at, generate_spec(node, table, a, at, repeat).at),
    ensures
        generate_spec(node, table, b, at, repeat) == generate_spec(node, table, a, at, repeat),
    decreases repeat,
{
    if repeat > 0 {
        let before = generate_spec(node, table, a, at, (repeat - 1) as nat);
        lemma_generate_advances(node, table, a, at, (repeat - 1) as nat);
        lemma_node_advances(node, table, a, before.at);
        lemma_generate_frame(node, table, a, b, at, (repeat - 1) as nat);
        if before.value is Ok {
            lemma_node_frame(node, table, a, b, before.at);
        }
    }
}

/// Once a prefix of the nodes has failed, the whole list fails alike.
proof fn lemma_nodes_fault(
    nodes: Seq<NodeView>,
    k: int,
    table: Seq<FunctionSpecView>,
    tape: Seq<u64>,
    at: int,
)
    requires
        0 <= k <= nodes.len(),
        render_nodes(nodes.take(k), table, tape, at).value is Err,
    ensures
        render_nodes(nodes, table, tape, at) == render_nodes(nodes.take(k), table, tape, at),
    decreases nodes.len(),
{
    if k == nodes.len() {
        assert(nodes.take(k) =~= nodes);
    } else {
        assert(nodes.drop_last().take(k) =~= nodes.take(k));
        lemma_nodes_fault(nodes.drop_last(), k, table, tape, at);
    }
}

/// Once a prefix of the fields has failed, the whole list fails alike.
proof fn lemma_fields_fault(
    fields: Seq<FieldView>,
    k: int,
    table: Seq<FunctionSpecView>,
    tape: Seq<u64>,
    at: int,
)
    requires
        0 <= k <= fields.len(),
        render_fields(fields.take(k), table, tape, at).value is Err,
    ensures
        render_fields(fields, table, tape, at) == render_fields(fields.take(k), table, tape, at),
    decreases fields.len(),
{
    if k == fields.len() {
        assert(fields.take(k) =~= fields);
    } else {
        assert(fields.drop_last().take(k) =~= fields.take(k));
        lemma_fields_fault(fields.drop_last(), k, table, tape, at);
    }
}

/// Once a run has failed, asking for more documents fails alike.
proof fn lemma_generate_fault(
    node: NodeView,
    table: Seq<FunctionSpecView>,
    tape: Seq<u64>,
    at: int,
    done: nat,
    repeat: nat,
)
    requires
        done <= repeat,
        generate_spec(node, table, tape, at, done).value is Err,
    ensures
        generate_spec(node, table, tape, at, repeat) == generate_spec(node, table, tape, at, done),
    decreases repeat,
{
    if done < repeat {
        lemma_generate_fault(node, table, tape, at, done, (repeat - 1) as nat);
    }
}

/// What a list of members stands for in contracts.
pub open spec fn members_view(members: Seq<Member>) -> Seq<MemberView> {
    Seq::new(members.len(), |i: int| members[i]@)
}

/// Renders one node of a template.
fn render(node: &Node, registry: &Registry, source: &mut RandomSource) -> (r: Result<
    Json,
    GenError,
>)
    ensures
        old(source).drawn().is_prefix_of(final(source).drawn()),
        render_node(
            node@,
            registry@,
            final(source).drawn(),
            old(source).drawn().len() as int,
        ) == (Step { value: result_view(r), at: final(source).drawn().len() as int }),
    decreases node,
{
    let ghost start = source.drawn().len() as int;
    match node {
        Node::Literal(json) => Ok(json.duplicate()),
        Node::Call(call) => evaluate(call, registry, source),
        Node::Array(nodes) => {
            let ghost views = node@->Array_0;
            let mut items: Vec<Json> = Vec::new();
            let mut i: usize = 0;
            assert(views.take(0) =~= Seq::empty());
            assert(values_view(items@) =~= Seq::empty());
            while i < nodes.len()
                invariant
                    i <= nodes.len(),
                    *node == Node::Array(*nodes),
                    views == node@->Array_0,
                    start == old(source).drawn().len(),
                    old(source).drawn().is_prefix_of(source.drawn()),
                    render_nodes(views.take(i as int), registry@, source.drawn(), start) == (Step {
                        value: Ok(values_view(items@)),
                        at: source.drawn().len() as int,
                    }),
                decreases nodes.len() - i,
            {
                let ghost before = source.drawn();
                let ghost held = values_view(items@);
                proof {
                    assert(views.take(i + 1).drop_last() =~= views.take(i as int));
                    assert(views.take(i + 1).last() == nodes@[i as int]@);
                    assert(decreases_to!(*node => node->Array_0));
                }
                let rendered = render(&nodes[i], registry, source);
                proof {
                    assert(same_words(before, source.drawn(), start, before.len() as int));
                    lemma_nodes_frame(
                        views.take(i as int),
                        registry@,
                        before,
                        source.drawn(),
                        start,
                    );
                }
                match rendered {
                    Ok(item) => {
                        let ghost added = item@;
                        items.push(item);
                        assert(values_view(items@) =~= held.push(added));
                    },
                    Err(e) => {
                        proof {
                            lemma_nodes_fault(views, i + 1, registry@, source.drawn(), start);
                        }
                        return Err(e);
                    },
                }
                i += 1;
            }
            assert(views.take(i as int) =~= views);
            let json = Json::Array(items);
            assert(json@->Array_0 =~= values_view(items@));
            Ok(json)
        },
        Node::Object(fields) => {
            let ghost views = node@->Object_0;
            let mut members: Vec<Member> = Vec::new();
            let mut i: usize = 0;
            assert(views.take(0) =~= Seq::empty());
            assert(members_view(members@) =~= Seq::empty());
            while i < fields.len()
                invariant
                    i <= fields.len(),
                    *node == Node::Object(*fields),
                    views == node@->Object_0,
                    start == old(source).drawn().len(),
                    old(source).drawn().is_prefix_of(source.drawn()),
                    render_fields(views.take(i as int), registry@, source.drawn(), start) == (Step {
                        value: Ok(members_view(members@)),
                        at: source.drawn().len() as int,
                    }),
                decreases fields.len() - i,
            {
                let ghost before = source.drawn();
                let ghost held = members_view(members@);
                proof {
                    assert(views.take(i + 1).drop_last() =~= views.take(i as int));
                    assert(views.take(i + 1).last() == fields@[i as int]@);
                    assert(decreases_to!(*node => node->Object_0));
                    assert(decreases_to!(fields[i as int] => fields[i as int].child));
                }
                let rendered = render(&fields[i].child, registry, source);
                proof {
                    assert(same_words(before, source.drawn(), start, before.len() as int));
                    lemma_fields_frame(
                        views.take(i as int),
                        registry@,
                        before,
                        source.drawn(),
                        start,
                    );
                }
                match rendered {
                    Ok(value) => {
                        let member = Member { key: fields[i].key.clone(), value };
                        let ghost added = member@;
                        members.push(member);
                        assert(members_view(members@) =~= held.push(added));
                    },
                    Err(e) => {
                        proof {
                            lemma_fields_fault(views, i + 1, registry@, source.drawn(), start);
                        }
                        return Err(e);
                    },
                }
                i += 1;
            }
            assert(views.take(i as int) =~= views);
            let json = Json::Object(members);
            assert(json@->Object_0 =~= members_view(members@));
            Ok(json)
        },
    }
}

/// What a run gives, in the terms of contracts.
pub open spec fn documents_view(r: Result<Vec<Json>, GenError>) -> Result<Seq<JsonView>, Fault> {
    match r {
        Ok(documents) => Ok(values_view(documents@)),
        Err(e) => Err(e@),
    }
}

impl JsonTemplate {
    /// One document: the template with every call evaluated afresh, on
    /// words newly drawn from `source`.
    pub fn next_value(&self, registry: &Registry, source: &mut RandomSource) -> (r: Result<
        Json,
        GenError,
    >)
        ensures
            old(source).drawn().is_prefix_of(final(source).drawn()),
            render_node(
                self@,
                registry@,
                final(source).drawn(),
                old(source).drawn().len() as int,
            ) == (Step { value: result_view(r), at: final(source).drawn().len() as int }),
    {
        render(self.root(), registry, source)
    }
}

/// Generates `repeat` documents from a template, in order, each on words
/// of its own. The first failure ends the run, and no document is handed
/// out.
pub fn generate(
    template: &JsonTemplate,
    repeat: u32,
    registry: &Registry,
    source: &mut RandomSource,
) -> (r: Result<Vec<Json>, GenError>)
    ensures
        old(source).drawn().is_prefix_of(final(source).drawn()),
        generate_spec(
            template@,
            registry@,
            final(source).drawn(),
            old(source).drawn().len() as int,
            repeat as nat,
        ) == (Step { value: documents_view(r), at: final(source).drawn().len() as int }),
        r matches Ok(documents) ==> documents.len() == repeat,
{
    let ghost start = source.drawn().len() as int;
    let mut documents: Vec<Json> = Vec::new();
    let mut done: u32 = 0;
    assert(values_view(documents@) =~= Seq::empty());
    while done < repeat
        invariant
            done <= repeat,
            documents.len() == done,
            start == old(source).drawn().len(),
            old(source).drawn().is_prefix_of(source.drawn()),
            generate_spec(template@, registry@, source.drawn(), start, done as nat) == (Step {
                value: Ok(values_view(documents@)),
                at: source.drawn().len() as int,
            }),
        decreases repeat - done,
    {
        let ghost before = source.drawn();
        let ghost held = values_view(documents@);
        let next = template.next_value(registry, source);
        proof {
            assert(same_words(before, source.drawn(), start, before.len() as int));
            lemma_generate_frame(
                template@,
                registry@,
                before,
                source.drawn(),
                start,
                done as nat,
            );
        }
        match next {
            Ok(document) => {
                let ghost added = document@;
                documents.push(document);
                assert(values_view(documents@) =~= held.push(added));
            },
            Err(e) => {
                proof {
                    lemma_generate_fault(
                        template@,
                        registry@,
                        source.drawn(),
                        start,
                        (done + 1) as nat,
                        repeat as nat,
                    );
                }
                return Err(e);
            },
        }
        done += 1;
    }
    Ok(documents)
}

} // verus!
