//! What holds of the library as a whole, proved from the definitions that
//! its contracts are stated in.

use vstd::prelude::*;
use vstd::arithmetic::div_mod::{lemma_fundamental_div_mod, lemma_fundamental_div_mod_converse};
use crate::call::{ArgView, CallView};
use crate::dispatch::{is_done, place_after};
use crate::engine::{
    generate_spec, lemma_generate_advances, render_fields, render_node, render_nodes,
};
use crate::error::{Fault, GenErrorType};
use crate::evaluator::{bounds_of, eval_args, eval_call, run_routine, Step};
use crate::grammar::parse_call_spec;
use crate::json::{JsonView, MemberView};
use crate::random::word_at;
use crate::registry::{
    check_args, lookup, standard_table, unknown_function_fault, FunctionSpecView, Routine,
};
use crate::sender::file::folder_file_name;
use crate::text::{
    all_digits, decimal_text, digit_char, digits_value, integer_of, integer_text,
};
use crate::json_template::{
    all_literal, all_plain, fields_of, generator_field, has_no_marked_key, is_marked, node_of,
    nodes_of, FieldView, NodeView,
};
use crate::uuid::{hex_char, is_canonical_uuid, lemma_uuid_canonical, nibble, uuid_text};

verus! {

/// The items of an array without marked keys are literals, one for one.
proof fn lemma_plain_items(items: Seq<JsonView>, marker: Seq<char>)
    requires
        forall|i: int| 0 <= i < items.len() ==> has_no_marked_key(#[trigger] items[i], marker),
    ensures
        nodes_of(items, marker) == Ok::<Seq<NodeView>, Fault>(
            Seq::new(items.len(), |i: int| NodeView::Literal(items[i])),
        ),
    decreases items,
{
    let wanted = Seq::new(items.len(), |i: int| NodeView::Literal(items[i]));
    if items.len() == 0 {
        assert(wanted =~= Seq::empty());
    } else {
        let front = items.drop_last();
        assert forall|i: int| 0 <= i < front.len() implies has_no_marked_key(
            #[trigger] front[i],
            marker,
        ) by {
            assert(front[i] == items[i]);
        }
        lemma_plain_items(front, marker);
        assert(has_no_marked_key(items[items.len() - 1], marker));
        law_plain_template(items.last(), marker);
        assert(Seq::new(front.len(), |i: int| NodeView::Literal(front[i])).push(
            NodeView::Literal(items.last()),
        ) =~= wanted);
    }
}

/// The members of an object without marked keys are plain fields, one for
/// one.
proof fn lemma_plain_members(members: Seq<MemberView>, marker: Seq<char>)
    requires
        forall|i: int|
            0 <= i < members.len() ==> !is_marked((#[trigger] members[i]).key, marker)
                && has_no_marked_key(members[i].value, marker),
    ensures
        fields_of(members, marker) == Ok::<Seq<FieldView>, Fault>(
            Seq::new(
                members.len(),
                |i: int|
                    FieldView {
                        key: members[i].key,
                        is_generator: false,
                        child: NodeView::Literal(members[i].value),
                    },
            ),
        ),
    decreases members,
{
    let wanted = Seq::new(
        members.len(),
        |i: int|
            FieldView {
                key: members[i].key,
                is_generator: false,
                child: NodeView::Literal(members[i].value),
            },
    );
    if members.len() == 0 {
        assert(wanted =~= Seq::empty());
    } else {
        let front = members.drop_last();
        assert forall|i: int| 0 <= i < front.len() implies !is_marked(
            (#[trigger] front[i]).key,
            marker,
        ) && has_no_marked_key(front[i].value, marker) by {
            assert(front[i] == members[i]);
        }
        lemma_plain_members(front, marker);
        let last = members[members.len() - 1];
        assert(!is_marked(last.key, marker) && has_no_marked_key(last.value, marker));
        law_plain_template(members.last().value, marker);
        assert(Seq::new(
            front.len(),
            |i: int|
                FieldView {
                    key: front[i].key,
                    is_generator: false,
                    child: NodeView::Literal(front[i].value),
                },
        ).push(
            FieldView {
                key: members.last().key,
                is_generator: false,
                child: NodeView::Literal(members.last().value),
            },
        ) =~= wanted);
    }
}

/// The template of a value without marked keys is that value, as one
/// literal.
pub proof fn law_plain_template(json: JsonView, marker: Seq<char>)
    requires
        has_no_marked_key(json, marker),
    ensures
        node_of(json, marker) == Ok::<NodeView, Fault>(NodeView::Literal(json)),
    decreases json,
{
    match json {
        JsonView::Array(items) => {
            lemma_plain_items(items, marker);
        },
        JsonView::Object(members) => {
            lemma_plain_members(members, marker);
        },
        _ => {},
    }
}

/// A template without marked keys gives its own value as every document of
/// a run, whatever the number of documents, the table and the random words,
/// and reads no word.
pub proof fn law_passthrough(
    json: JsonView,
    marker: Seq<char>,
    table: Seq<FunctionSpecView>,
    tape: Seq<u64>,
    at: int,
    repeat: nat,
)
    requires
        has_no_marked_key(json, marker),
    ensures
        node_of(json, marker) == Ok::<NodeView, Fault>(NodeView::Literal(json)),
        generate_spec(NodeView::Literal(json), table, tape, at, repeat) == (Step {
            value: Ok(Seq::new(repeat, |i: int| json)),
            at,
        }),
    decreases repeat,
{
    law_plain_template(json, marker);
    if repeat == 0 {
        assert(Seq::new(repeat, |i: int| json) =~= Seq::empty());
    } else {
        law_passthrough(json, marker, table, tape, at, (repeat - 1) as nat);
        assert(Seq::new((repeat - 1) as nat, |i: int| json).push(json) =~= Seq::new(
            repeat,
            |i: int| json,
        ));
    }
}

/// The call `uuid()`.
pub open spec fn uuid_call() -> CallView {
    CallView { name: "uuid"@, args: Seq::empty() }
}

/// In the standard table `uuid` is the entry that makes UUIDs.
proof fn lemma_standard_uuid()
    ensures
        lookup(standard_table(), "uuid"@) == Some(standard_table()[0]),
{
    reveal_strlit("uuid");
    reveal_strlit("bool");
    reveal_strlit("choice");
    reveal_strlit("int");
    let table = standard_table();
    assert(table.last() == table[3]);
    assert(table[3].name.len() == 3);
    assert(table.drop_last().last() == table[2]);
    assert(table[2].name.len() == 6);
    assert(table.drop_last().drop_last().last() == table[1]);
    assert(table[1].name[0] == 'b');
    assert(table.drop_last().drop_last().drop_last().last() == table[0]);
    reveal_with_fuel(lookup, 5);
}

/// Under the standard table `uuid()` always succeeds: it reads two words
/// and gives the UUID made of them, a text of 36 characters in the
/// canonical layout.
pub proof fn law_uuid_layout(tape: Seq<u64>, at: int)
    ensures
        eval_call(uuid_call(), standard_table(), tape, at) == (Step {
            value: Ok(JsonView::Text(uuid_text(word_at(tape, at), word_at(tape, at + 1)))),
            at: at + 2,
        }),
        is_canonical_uuid(uuid_text(word_at(tape, at), word_at(tape, at + 1))),
{
    lemma_standard_uuid();
    lemma_uuid_canonical(word_at(tape, at), word_at(tape, at + 1));
    let entry = standard_table()[0];
    assert(eval_args(Seq::<ArgView>::empty(), standard_table(), tape, at).value == Ok::<
        Seq<JsonView>,
        Fault,
    >(Seq::empty()));
    assert(check_args(entry, Seq::<JsonView>::empty()) is Ok);
}

/// A run that succeeds gives exactly as many documents as were asked for.
pub proof fn law_document_count(
    node: NodeView,
    table: Seq<FunctionSpecView>,
    tape: Seq<u64>,
    at: int,
    repeat: nat,
)
    ensures
        generate_spec(node, table, tape, at, repeat).value matches Ok(documents)
            ==> documents.len() == repeat,
    decreases repeat,
{
    if repeat > 0 {
        law_document_count(node, table, tape, at, (repeat - 1) as nat);
    }
}

/// A run that succeeds is made of the shorter runs before it: each of
/// them succeeded too, and its documents are the first ones of the whole.
pub proof fn law_run_extends(
    node: NodeView,
    table: Seq<FunctionSpecView>,
    tape: Seq<u64>,
    at: int,
    done: nat,
    repeat: nat,
)
    requires
        done <= repeat,
        generate_spec(node, table, tape, at, repeat).value is Ok,
    ensures
        generate_spec(node, table, tape, at, done).value is Ok,
        generate_spec(node, table, tape, at, done).value->Ok_0 =~= generate_spec(
            node,
            table,
            tape,
            at,
            repeat,
        ).value->Ok_0.take(done as int),
    decreases repeat,
{
    law_document_count(node, table, tape, at, repeat);
    if done < repeat {
        law_run_extends(node, table, tape, at, done, (repeat - 1) as nat);
        law_document_count(node, table, tape, at, (repeat - 1) as nat);
    }
}

/// Every document of a run is evaluated on its own: document `i` is what
/// the template gives from the place on the tape where the `i` documents
/// before it left off, so that no two documents read the same word.
pub proof fn law_documents_apart(
    node: NodeView,
    table: Seq<FunctionSpecView>,
    tape: Seq<u64>,
    at: int,
    repeat: nat,
    i: int,
)
    requires
        0 <= i < repeat,
        generate_spec(node, table, tape, at, repeat).value is Ok,
    ensures
        generate_spec(node, table, tape, at, i as nat).value is Ok,
        generate_spec(node, table, tape, at, i as nat).at >= at,
        render_node(
            node,
            table,
            tape,
            generate_spec(node, table, tape, at, i as nat).at,
        ) == (Step {
            value: Ok(generate_spec(node, table, tape, at, repeat).value->Ok_0[i]),
            at: generate_spec(node, table, tape, at, (i + 1) as nat).at,
        }),
{
    law_run_extends(node, table, tape, at, (i + 1) as nat, repeat);
    law_document_count(node, table, tape, at, (i + 1) as nat);
    law_document_count(node, table, tape, at, i as nat);
    law_document_count(node, table, tape, at, repeat);
    lemma_generate_advances(node, table, tape, at, i as nat);
    let whole = generate_spec(node, table, tape, at, repeat).value->Ok_0;
    let before = generate_spec(node, table, tape, at, i as nat);
    let through = generate_spec(node, table, tape, at, (i + 1) as nat);
    assert(((i + 1) as nat - 1) as nat == i as nat);
    assert(before.value is Ok);
    let next = render_node(node, table, tape, before.at);
    assert(next.value is Ok);
    assert(through.value->Ok_0 == before.value->Ok_0.push(next.value->Ok_0));
    assert(whole.take(i + 1)[i] == whole[i]);
}

/// The first document that fails ends the run: the run fails as that
/// document did, however many documents were asked for.
pub proof fn law_failure_ends_run(
    node: NodeView,
    table: Seq<FunctionSpecView>,
    tape: Seq<u64>,
    at: int,
    repeat: nat,
)
    requires
        repeat >= 1,
        render_node(node, table, tape, at).value is Err,
    ensures
        generate_spec(node, table, tape, at, repeat) == (Step::<Seq<JsonView>> {
            value: Err(render_node(node, table, tape, at).value->Err_0),
            at: render_node(node, table, tape, at).at,
        }),
    decreases repeat,
{
    if repeat > 1 {
        law_failure_ends_run(node, table, tape, at, (repeat - 1) as nat);
    } else {
        assert(generate_spec(node, table, tape, at, 0) == (Step {
            value: Ok(Seq::<JsonView>::empty()),
            at,
        }));
    }
}

/// A call to a function that the table does not hold fails, as a failure
/// of the generator; where its arguments resolve, the failure names the
/// function.
pub proof fn law_unknown_function(
    call: CallView,
    table: Seq<FunctionSpecView>,
    tape: Seq<u64>,
    at: int,
)
    requires
        lookup(table, call.name) is None,
    ensures
        eval_call(call, table, tape, at).value is Err,
        eval_call(call, table, tape, at).value->Err_0.tpe == GenErrorType::Generator,
        eval_args(call.args, table, tape, at).value is Ok ==> eval_call(
            call,
            table,
            tape,
            at,
        ).value == Err::<JsonView, Fault>(unknown_function_fault(call.name)),
{
    law_generator_faults(call, table, tape, at);
}

/// Every failure of an evaluation is a failure of the generator.
pub proof fn law_generator_faults(
    call: CallView,
    table: Seq<FunctionSpecView>,
    tape: Seq<u64>,
    at: int,
)
    ensures
        eval_call(call, table, tape, at).value matches Err(fault) ==> fault.tpe
            == GenErrorType::Generator,
    decreases call,
{
    lemma_generator_faults_args(call.args, table, tape, at);
}

proof fn lemma_generator_faults_args(
    args: Seq<ArgView>,
    table: Seq<FunctionSpecView>,
    tape: Seq<u64>,
    at: int,
)
    ensures
        eval_args(args, table, tape, at).value matches Err(fault) ==> fault.tpe
            == GenErrorType::Generator,
    decreases args,
{
    if args.len() > 0 {
        lemma_generator_faults_args(args.drop_last(), table, tape, at);
        let before = eval_args(args.drop_last(), table, tape, at);
        if let ArgView::Nested(call) = args.last() {
            law_generator_faults(call, table, tape, before.at);
        }
    }
}

/// Every failure to build a template is a failure of the parser.
pub proof fn law_parser_faults(json: JsonView, marker: Seq<char>)
    ensures
        node_of(json, marker) matches Err(fault) ==> fault.tpe == GenErrorType::Parser,
    decreases json,
{
    match json {
        JsonView::Array(items) => lemma_parser_faults_items(items, marker),
        JsonView::Object(members) => lemma_parser_faults_members(members, marker),
        _ => {},
    }
}

proof fn lemma_parser_faults_items(items: Seq<JsonView>, marker: Seq<char>)
    ensures
        nodes_of(items, marker) matches Err(fault) ==> fault.tpe == GenErrorType::Parser,
    decreases items,
{
    if items.len() > 0 {
        lemma_parser_faults_items(items.drop_last(), marker);
        law_parser_faults(items.last(), marker);
    }
}

proof fn lemma_parser_faults_members(members: Seq<MemberView>, marker: Seq<char>)
    ensures
        fields_of(members, marker) matches Err(fault) ==> fault.tpe == GenErrorType::Parser,
    decreases members,
{
    if members.len() > 0 {
        lemma_parser_faults_members(members.drop_last(), marker);
        law_parser_faults(members.last().value, marker);
    }
}

/// The nodes of an array are the nodes of its items, one for one.
pub proof fn lemma_nodes_pointwise(items: Seq<JsonView>, marker: Seq<char>)
    requires
        nodes_of(items, marker) is Ok,
    ensures
        nodes_of(items, marker)->Ok_0.len() == items.len(),
        forall|i: int|
            0 <= i < items.len() ==> node_of(#[trigger] items[i], marker) == Ok::<
                NodeView,
                Fault,
            >(nodes_of(items, marker)->Ok_0[i]),
    decreases items.len(),
{
    if items.len() > 0 {
        lemma_nodes_pointwise(items.drop_last(), marker);
        let front = nodes_of(items.drop_last(), marker)->Ok_0;
        assert forall|i: int| 0 <= i < items.len() implies node_of(
            #[trigger] items[i],
            marker,
        ) == Ok::<NodeView, Fault>(nodes_of(items, marker)->Ok_0[i]) by {
            if i < items.len() - 1 {
                assert(items.drop_last()[i] == items[i]);
            }
        }
    }
}

/// The field that a member of an object gives.
pub open spec fn field_of(member: MemberView, marker: Seq<char>) -> Result<FieldView, Fault> {
    if is_marked(member.key, marker) {
        generator_field(member.key, member.value, marker)
    } else {
        match node_of(member.value, marker) {
            Ok(child) => Ok(FieldView { key: member.key, is_generator: false, child }),
            Err(fault) => Err(fault),
        }
    }
}

/// The fields of an object are the fields of its members, one for one.
pub proof fn lemma_fields_pointwise(members: Seq<MemberView>, marker: Seq<char>)
    requires
        fields_of(members, marker) is Ok,
    ensures
        fields_of(members, marker)->Ok_0.len() == members.len(),
        forall|i: int|
            0 <= i < members.len() ==> field_of(#[trigger] members[i], marker) == Ok::<
                FieldView,
                Fault,
            >(fields_of(members, marker)->Ok_0[i]),
    decreases members.len(),
{
    if members.len() > 0 {
        lemma_fields_pointwise(members.drop_last(), marker);
        assert forall|i: int| 0 <= i < members.len() implies field_of(
            #[trigger] members[i],
            marker,
        ) == Ok::<FieldView, Fault>(fields_of(members, marker)->Ok_0[i]) by {
            if i < members.len() - 1 {
                assert(members.drop_last()[i] == members[i]);
            }
        }
    }
}

/// Whether a node has the shape of a template: a literal holds no marked
/// key; an array or object is kept apart only where something beneath it
/// is generated; a field is a generator exactly where it holds a call; and
/// a call stands nowhere else.
pub open spec fn is_template(node: NodeView, marker: Seq<char>) -> bool
    decreases node,
{
    match node {
        NodeView::Literal(json) => has_no_marked_key(json, marker),
        NodeView::Call(_) => false,
        NodeView::Array(nodes) => !all_literal(nodes) && forall|i: int|
            0 <= i < nodes.len() ==> is_template(#[trigger] nodes[i], marker),
        NodeView::Object(fields) => !all_plain(fields) && forall|i: int|
            0 <= i < fields.len() ==> if (#[trigger] fields[i]).is_generator {
                fields[i].child is Call
            } else {
                is_template(fields[i].child, marker)
            },
    }
}

/// What is built from a JSON value has the shape of a template, and it is
/// one literal only for the value itself, and only where the value holds no
/// marked key.
pub proof fn law_template_shape(json: JsonView, marker: Seq<char>)
    requires
        node_of(json, marker) is Ok,
    ensures
        is_template(node_of(json, marker)->Ok_0, marker),
        node_of(json, marker)->Ok_0 matches NodeView::Literal(held) ==> held == json,
    decreases json,
{
    match json {
        JsonView::Array(items) => {
            lemma_nodes_pointwise(items, marker);
            let nodes = nodes_of(items, marker)->Ok_0;
            assert forall|i: int| 0 <= i < items.len() implies is_template(
                #[trigger] nodes[i],
                marker,
            ) && (nodes[i] matches NodeView::Literal(held) ==> held == items[i]) by {
                assert(node_of(items[i], marker) is Ok);
                law_template_shape(items[i], marker);
            }
            if all_literal(nodes) {
                assert forall|i: int| 0 <= i < items.len() implies has_no_marked_key(
                    #[trigger] items[i],
                    marker,
                ) by {
                    assert(nodes[i] is Literal);
                    assert(is_template(nodes[i], marker));
                }
            }
        },
        JsonView::Object(members) => {
            lemma_fields_pointwise(members, marker);
            let fields = fields_of(members, marker)->Ok_0;
            assert forall|i: int| 0 <= i < members.len() implies if (
            #[trigger] fields[i]).is_generator {
                fields[i].child is Call && is_marked(members[i].key, marker)
            } else {
                &&& !is_marked(members[i].key, marker)
                &&& is_template(fields[i].child, marker)
                &&& (fields[i].child matches NodeView::Literal(held) ==> held == members[i].value)
            } by {
                assert(field_of(members[i], marker) is Ok);
                if !is_marked(members[i].key, marker) {
                    law_template_shape(members[i].value, marker);
                }
            }
            if all_plain(fields) {
                assert forall|i: int| 0 <= i < members.len() implies !is_marked(
                    (#[trigger] members[i]).key,
                    marker,
                ) && has_no_marked_key(members[i].value, marker) by {
                    assert(!fields[i].is_generator && fields[i].child is Literal);
                    assert(is_template(fields[i].child, marker));
                }
            }
        },
        _ => {},
    }
}

/// A template is one literal exactly where the value holds no marked key.
pub proof fn law_literal_iff_plain(json: JsonView, marker: Seq<char>)
    ensures
        has_no_marked_key(json, marker) <==> node_of(json, marker) == Ok::<NodeView, Fault>(
            NodeView::Literal(json),
        ),
{
    if has_no_marked_key(json, marker) {
        law_plain_template(json, marker);
    }
    if node_of(json, marker) is Ok {
        law_template_shape(json, marker);
    }
}

/// A document's object has the members of the template's object: as many,
/// in the same order, under the keys of the fields, and with the value of
/// each literal field as it stands in the template.
pub proof fn law_members_follow_fields(
    fields: Seq<FieldView>,
    table: Seq<FunctionSpecView>,
    tape: Seq<u64>,
    at: int,
)
    requires
        render_fields(fields, table, tape, at).value is Ok,
    ensures
        render_fields(fields, table, tape, at).value->Ok_0.len() == fields.len(),
        forall|i: int|
            0 <= i < fields.len() ==> (#[trigger] render_fields(
                fields,
                table,
                tape,
                at,
            ).value->Ok_0[i]).key == fields[i].key,
        forall|i: int|
            0 <= i < fields.len() && fields[i].child is Literal ==> (#[trigger] render_fields(
                fields,
                table,
                tape,
                at,
            ).value->Ok_0[i]).value == fields[i].child->Literal_0,
    decreases fields.len(),
{
    if fields.len() > 0 {
        law_members_follow_fields(fields.drop_last(), table, tape, at);
        let before = render_fields(fields.drop_last(), table, tape, at);
        assert(before.value is Ok);
        let front = before.value->Ok_0;
        let last = render_node(fields.last().child, table, tape, before.at);
        assert(last.value is Ok);
        let members = render_fields(fields, table, tape, at).value->Ok_0;
        assert(members == front.push(
            MemberView { key: fields.last().key, value: last.value->Ok_0 },
        ));
        assert forall|i: int| 0 <= i < fields.len() implies (#[trigger] members[i]).key
            == fields[i].key && (fields[i].child is Literal ==> members[i].value
            == fields[i].child->Literal_0) by {
            if i < fields.len() - 1 {
                assert(members[i] == front[i]);
                assert(fields.drop_last()[i] == fields[i]);
                assert(render_fields(fields.drop_last(), table, tape, at).value->Ok_0[i].key
                    == fields.drop_last()[i].key);
            }
        }
    }
}

/// A document's array has the items of the template's array: as many, in
/// the same order, and each literal item as it stands in the template.
pub proof fn law_items_follow_nodes(
    nodes: Seq<NodeView>,
    table: Seq<FunctionSpecView>,
    tape: Seq<u64>,
    at: int,
)
    requires
        render_nodes(nodes, table, tape, at).value is Ok,
    ensures
        render_nodes(nodes, table, tape, at).value->Ok_0.len() == nodes.len(),
        forall|i: int|
            0 <= i < nodes.len() && nodes[i] is Literal ==> #[trigger] render_nodes(
                nodes,
                table,
                tape,
                at,
            ).value->Ok_0[i] == nodes[i]->Literal_0,
    decreases nodes.len(),
{
    if nodes.len() > 0 {
        law_items_follow_nodes(nodes.drop_last(), table, tape, at);
        let before = render_nodes(nodes.drop_last(), table, tape, at);
        assert(before.value is Ok);
        let front = before.value->Ok_0;
        let last = render_node(nodes.last(), table, tape, before.at);
        assert(last.value is Ok);
        let items = render_nodes(nodes, table, tape, at).value->Ok_0;
        assert(items == front.push(last.value->Ok_0));
        assert forall|i: int| 0 <= i < nodes.len() && nodes[i] is Literal implies #[trigger] items[i]
            == nodes[i]->Literal_0 by {
            if i < nodes.len() - 1 {
                assert(items[i] == front[i]);
                assert(nodes.drop_last()[i] == nodes[i]);
                assert(render_nodes(nodes.drop_last(), table, tape, at).value->Ok_0[i]
                    == nodes.drop_last()[i]->Literal_0);
            }
        }
    }
}

/// A decimal numeral is made of digits, at least one, and writes the
/// number it was made for.
pub proof fn law_decimal_value(n: nat)
    ensures
        decimal_text(n).len() >= 1,
        all_digits(decimal_text(n)),
        digits_value(decimal_text(n)) == n,
    decreases n,
{
    if n < 10 {
        let text = decimal_text(n);
        assert(text.drop_last() =~= Seq::<char>::empty());
        assert(digits_value(text.drop_last()) == 0);
        assert(text.last() == digit_char(n as int));
    } else {
        law_decimal_value(n / 10);
        let front = decimal_text(n / 10);
        let text = decimal_text(n);
        assert(text.drop_last() =~= front);
        assert(text.last() == digit_char((n % 10) as int));
        assert forall|i: int| 0 <= i < text.len() implies '0' <= #[trigger] text[i] <= '9' by {
            if i < front.len() {
                assert(text[i] == front[i]);
            }
        }
    }
}

/// Two numbers with one decimal numeral are one number.
pub proof fn law_decimal_distinct(a: nat, b: nat)
    requires
        decimal_text(a) == decimal_text(b),
    ensures
        a == b,
{
    law_decimal_value(a);
    law_decimal_value(b);
}

/// The files of a folder destination never share a name: two documents
/// with different numbers go to different files.
pub proof fn law_folder_names_distinct(i: nat, j: nat)
    requires
        folder_file_name(i) == folder_file_name(j),
    ensures
        i == j,
{
    reveal_strlit("json_");
    reveal_strlit(".json");
    let a = decimal_text(i);
    let b = decimal_text(j);
    let x = folder_file_name(i);
    let y = folder_file_name(j);
    assert(x.len() == 10 + a.len());
    assert(y.len() == 10 + b.len());
    assert(a =~= x.subrange(5, 5 + a.len() as int));
    assert(b =~= y.subrange(5, 5 + b.len() as int));
    law_decimal_distinct(i, j);
}

/// The numeral of a whole number of 64 bits is read back as that number.
pub proof fn law_integer_round_trip(n: int)
    requires
        -0x8000_0000_0000_0000 <= n <= 0x7fff_ffff_ffff_ffff,
    ensures
        integer_of(integer_text(n)) == Some(n),
{
    let text = integer_text(n);
    if n < 0 {
        law_decimal_value((-n) as nat);
        assert(text[0] == '-');
        assert(text.skip(1) =~= decimal_text((-n) as nat));
    } else {
        law_decimal_value(n as nat);
        assert(text[0] != '-');
    }
}

/// `int` gives a whole number within its bounds, both included.
pub proof fn law_int_within_bounds(name: Seq<char>, values: Seq<JsonView>, tape: Seq<u64>, at: int)
    requires
        bounds_of(values) is Some,
    ensures
        ({
            let (least, greatest) = bounds_of(values)->0;
            let picked = least + (word_at(tape, at) as int) % (greatest - least + 1);
            &&& least <= picked <= greatest
            &&& run_routine(Routine::Integer, name, values, tape, at) == (Step {
                value: Ok(JsonView::Number(integer_text(picked))),
                at: at + 1,
            })
            &&& integer_of(integer_text(picked)) == Some(picked)
        }),
{
    let (least, greatest) = bounds_of(values)->0;
    let picked = least + (word_at(tape, at) as int) % (greatest - least + 1);
    law_integer_bounds(values[0]->Number_0);
    law_integer_bounds(values[1]->Number_0);
    law_integer_round_trip(picked);
}

/// A whole number that a text writes is within 64 bits with a sign.
pub proof fn law_integer_bounds(text: Seq<char>)
    ensures
        integer_of(text) matches Some(n) ==> -0x8000_0000_0000_0000 <= n
            <= 0x7fff_ffff_ffff_ffff,
{
}

/// The lower-case digit for a value below 16 tells the value.
proof fn lemma_hex_distinct(a: u64, b: u64)
    requires
        a < 16,
        b < 16,
        hex_char(a) == hex_char(b),
    ensures
        a == b,
{
}

/// Two hexadecimal digits of a word are below 16.
proof fn lemma_nibble_small(word: u64, k: int)
    requires
        0 <= k < 16,
    ensures
        nibble(word, k) < 16,
        8 <= ((nibble(word, k) & 3) | 8) < 12,
{
    let shift = (60 - 4 * k) as u64;
    assert((word >> shift) & 0xf < 16) by (bit_vector);
    assert(8 <= ((((word >> shift) & 0xf) & 3) | 8) < 12) by (bit_vector);
}

/// The bits of the first word that a UUID shows: all but the four that the
/// version takes the place of.
pub open spec fn shown_high(hi: u64) -> u64 {
    hi & 0xffff_ffff_ffff_0fff
}

/// The bits of the second word that a UUID shows: all but the two that the
/// variant takes the place of.
pub open spec fn shown_low(lo: u64) -> u64 {
    lo & 0x3fff_ffff_ffff_ffff
}

/// Two UUIDs are the same text only where the 122 bits they show are the
/// same: words that differ in one of those bits give different UUIDs.
pub proof fn law_uuid_distinct(h1: u64, l1: u64, h2: u64, l2: u64)
    requires
        uuid_text(h1, l1) == uuid_text(h2, l2),
    ensures
        shown_high(h1) == shown_high(h2),
        shown_low(l1) == shown_low(l2),
{
    let a = uuid_text(h1, l1);
    let b = uuid_text(h2, l2);
    assert forall|k: int| 0 <= k < 16 && k != 12 implies nibble(h1, k) == nibble(h2, k) by {
        let i = if k < 8 {
            k
        } else if k < 12 {
            k + 1
        } else {
            k + 2
        };
        assert(a[i] == b[i]);
        lemma_nibble_small(h1, k);
        lemma_nibble_small(h2, k);
        lemma_hex_distinct(nibble(h1, k), nibble(h2, k));
    }
    assert forall|k: int| 1 <= k < 16 implies nibble(l1, k) == nibble(l2, k) by {
        let i = if k < 4 {
            k + 19
        } else {
            k + 20
        };
        assert(a[i] == b[i]);
        lemma_nibble_small(l1, k);
        lemma_nibble_small(l2, k);
        lemma_hex_distinct(nibble(l1, k), nibble(l2, k));
    }
    assert(a[19] == b[19]);
    lemma_nibble_small(l1, 0);
    lemma_nibble_small(l2, 0);
    lemma_hex_distinct((nibble(l1, 0) & 3) | 8, (nibble(l2, 0) & 3) | 8);
    lemma_words_of_nibbles(h1, h2, l1, l2);
}

/// Words with the same hexadecimal digits show the same bits.
proof fn lemma_words_of_nibbles(h1: u64, h2: u64, l1: u64, l2: u64)
    requires
        forall|k: int| 0 <= k < 16 && k != 12 ==> nibble(h1, k) == nibble(h2, k),
        forall|k: int| 1 <= k < 16 ==> nibble(l1, k) == nibble(l2, k),
        (nibble(l1, 0) & 3) | 8 == (nibble(l2, 0) & 3) | 8,
    ensures
        shown_high(h1) == shown_high(h2),
        shown_low(l1) == shown_low(l2),
{
    assert(nibble(h1, 0) == nibble(h2, 0) && nibble(h1, 1) == nibble(h2, 1) && nibble(h1, 2)
        == nibble(h2, 2) && nibble(h1, 3) == nibble(h2, 3) && nibble(h1, 4) == nibble(h2, 4)
        && nibble(h1, 5) == nibble(h2, 5) && nibble(h1, 6) == nibble(h2, 6) && nibble(h1, 7)
        == nibble(h2, 7) && nibble(h1, 8) == nibble(h2, 8) && nibble(h1, 9) == nibble(h2, 9)
        && nibble(h1, 10) == nibble(h2, 10) && nibble(h1, 11) == nibble(h2, 11) && nibble(h1, 13)
        == nibble(h2, 13) && nibble(h1, 14) == nibble(h2, 14) && nibble(h1, 15) == nibble(
        h2,
        15,
    ));
    assert(nibble(l1, 1) == nibble(l2, 1) && nibble(l1, 2) == nibble(l2, 2) && nibble(l1, 3)
        == nibble(l2, 3) && nibble(l1, 4) == nibble(l2, 4) && nibble(l1, 5) == nibble(l2, 5)
        && nibble(l1, 6) == nibble(l2, 6) && nibble(l1, 7) == nibble(l2, 7) && nibble(l1, 8)
        == nibble(l2, 8) && nibble(l1, 9) == nibble(l2, 9) && nibble(l1, 10) == nibble(l2, 10)
        && nibble(l1, 11) == nibble(l2, 11) && nibble(l1, 12) == nibble(l2, 12) && nibble(l1, 13)
        == nibble(l2, 13) && nibble(l1, 14) == nibble(l2, 14) && nibble(l1, 15) == nibble(
        l2,
        15,
    ));
    assert(h1 & 0xffff_ffff_ffff_0fff == h2 & 0xffff_ffff_ffff_0fff) by (bit_vector)
        requires
            (h1 >> 60u64) & 0xf == (h2 >> 60u64) & 0xf,
            (h1 >> 56u64) & 0xf == (h2 >> 56u64) & 0xf,
            (h1 >> 52u64) & 0xf == (h2 >> 52u64) & 0xf,
            (h1 >> 48u64) & 0xf == (h2 >> 48u64) & 0xf,
            (h1 >> 44u64) & 0xf == (h2 >> 44u64) & 0xf,
            (h1 >> 40u64) & 0xf == (h2 >> 40u64) & 0xf,
            (h1 >> 36u64) & 0xf == (h2 >> 36u64) & 0xf,
            (h1 >> 32u64) & 0xf == (h2 >> 32u64) & 0xf,
            (h1 >> 28u64) & 0xf == (h2 >> 28u64) & 0xf,
            (h1 >> 24u64) & 0xf == (h2 >> 24u64) & 0xf,
            (h1 >> 20u64) & 0xf == (h2 >> 20u64) & 0xf,
            (h1 >> 16u64) & 0xf == (h2 >> 16u64) & 0xf,
            (h1 >> 8u64) & 0xf == (h2 >> 8u64) & 0xf,
            (h1 >> 4u64) & 0xf == (h2 >> 4u64) & 0xf,
            (h1 >> 0u64) & 0xf == (h2 >> 0u64) & 0xf,
    ;
    assert(l1 & 0x3fff_ffff_ffff_ffff == l2 & 0x3fff_ffff_ffff_ffff) by (bit_vector)
        requires
            (((l1 >> 60u64) & 0xf) & 3) | 8 == (((l2 >> 60u64) & 0xf) & 3) | 8,
            (l1 >> 56u64) & 0xf == (l2 >> 56u64) & 0xf,
            (l1 >> 52u64) & 0xf == (l2 >> 52u64) & 0xf,
            (l1 >> 48u64) & 0xf == (l2 >> 48u64) & 0xf,
            (l1 >> 44u64) & 0xf == (l2 >> 44u64) & 0xf,
            (l1 >> 40u64) & 0xf == (l2 >> 40u64) & 0xf,
            (l1 >> 36u64) & 0xf == (l2 >> 36u64) & 0xf,
            (l1 >> 32u64) & 0xf == (l2 >> 32u64) & 0xf,
            (l1 >> 28u64) & 0xf == (l2 >> 28u64) & 0xf,
            (l1 >> 24u64) & 0xf == (l2 >> 24u64) & 0xf,
            (l1 >> 20u64) & 0xf == (l2 >> 20u64) & 0xf,
            (l1 >> 16u64) & 0xf == (l2 >> 16u64) & 0xf,
            (l1 >> 12u64) & 0xf == (l2 >> 12u64) & 0xf,
            (l1 >> 8u64) & 0xf == (l2 >> 8u64) & 0xf,
            (l1 >> 4u64) & 0xf == (l2 >> 4u64) & 0xf,
            (l1 >> 0u64) & 0xf == (l2 >> 0u64) & 0xf,
    ;
}

/// Adding an entry to the table makes it the entry for its name and
/// leaves the entries for all other names as they were.
pub proof fn law_register(table: Seq<FunctionSpecView>, entry: FunctionSpecView, name: Seq<char>)
    ensures
        lookup(table.push(entry), entry.name) == Some(entry),
        name != entry.name ==> lookup(table.push(entry), name) == lookup(table, name),
{
    assert(table.push(entry).last() == entry);
    assert(table.push(entry).drop_last() =~= table);
}

/// The marker alone decides what a member of an object is. Under a key
/// without the marker a string stays the string it is, whatever it holds;
/// under a key with the marker a string that is a call becomes that call,
/// under the key without the marker.
pub proof fn law_marker_decides(key: Seq<char>, text: Seq<char>, marker: Seq<char>)
    ensures
        !is_marked(key, marker) ==> field_of(
            MemberView { key, value: JsonView::Text(text) },
            marker,
        ) == Ok::<FieldView, Fault>(
            FieldView { key, is_generator: false, child: NodeView::Literal(JsonView::Text(text)) },
        ),
        is_marked(key, marker) && parse_call_spec(text) is Ok ==> field_of(
            MemberView { key, value: JsonView::Text(text) },
            marker,
        ) == Ok::<FieldView, Fault>(
            FieldView {
                key: key.skip(marker.len() as int),
                is_generator: true,
                child: NodeView::Call(parse_call_spec(text)->Ok_0),
            },
        ),
        is_marked(key, marker) ==> marker + key.skip(marker.len() as int) =~= key,
{
}

/// Two nested calls in one argument list are evaluated one after the
/// other, the second on the words behind those that the first read: what
/// one of them evaluated to is never handed to the other, also where the
/// two are the same call.
pub proof fn law_nested_calls_apart(
    first: CallView,
    second: CallView,
    table: Seq<FunctionSpecView>,
    tape: Seq<u64>,
    at: int,
)
    requires
        eval_call(first, table, tape, at).value is Ok,
        eval_call(second, table, tape, eval_call(first, table, tape, at).at).value is Ok,
    ensures
        eval_call(first, table, tape, at).at >= at,
        eval_args(seq![ArgView::Nested(first), ArgView::Nested(second)], table, tape, at) == (Step {
            value: Ok(
                seq![
                    eval_call(first, table, tape, at).value->Ok_0,
                    eval_call(
                        second,
                        table,
                        tape,
                        eval_call(first, table, tape, at).at,
                    ).value->Ok_0,
                ],
            ),
            at: eval_call(second, table, tape, eval_call(first, table, tape, at).at).at,
        }),
{
    let args = seq![ArgView::Nested(first), ArgView::Nested(second)];
    let one = args.drop_last();
    assert(one =~= seq![ArgView::Nested(first)]);
    assert(one.drop_last() =~= Seq::<ArgView>::empty());
    assert(one.last() == ArgView::Nested(first));
    assert(args.last() == ArgView::Nested(second));
    let a = eval_call(first, table, tape, at);
    assert(eval_args(one.drop_last(), table, tape, at) == (Step::<Seq<JsonView>> {
        value: Ok(Seq::empty()),
        at,
    }));
    assert(eval_args(one, table, tape, at) == (Step::<Seq<JsonView>> {
        value: Ok(Seq::<JsonView>::empty().push(a.value->Ok_0)),
        at: a.at,
    }));
    let b = eval_call(second, table, tape, a.at);
    assert(Seq::<JsonView>::empty().push(a.value->Ok_0).push(b.value->Ok_0) =~= seq![
        a.value->Ok_0,
        b.value->Ok_0,
    ]);
    crate::evaluator::lemma_call_advances(first, table, tape, at);
}

/// The deliveries of a run go document by document, and for each document
/// destination by destination: after `made` deliveries the next one is that
/// of document `made / senders` to destination `made % senders`.
pub proof fn law_delivery_order(made: nat, senders: int)
    requires
        senders > 0,
    ensures
        place_after(made, senders) == (made as int / senders, made as int % senders),
    decreases made,
{
    if made == 0 {
        lemma_fundamental_div_mod_converse(0, senders, 0, 0);
    } else {
        law_delivery_order((made - 1) as nat, senders);
        let q = (made - 1) / senders;
        let r = (made - 1) % senders;
        lemma_fundamental_div_mod(made - 1, senders);
        assert(made - 1 == senders * q + r);
        if r + 1 < senders {
            assert(made == q * senders + (r + 1)) by (nonlinear_arith)
                requires
                    made - 1 == senders * q + r,
            ;
            lemma_fundamental_div_mod_converse(made as int, senders, q, r + 1);
        } else {
            assert(made == (q + 1) * senders + 0) by (nonlinear_arith)
                requires
                    made - 1 == senders * q + r,
                    r + 1 == senders,
            ;
            lemma_fundamental_div_mod_converse(made as int, senders, q + 1, 0);
        }
    }
}

/// Every document goes to every destination, once: the delivery of
/// document `document` to destination `sender` is the one that follows
/// `document * senders + sender` deliveries, and it is made before the run
/// is done.
pub proof fn law_every_delivery_made(document: int, sender: int, documents: int, senders: int)
    requires
        0 <= document < documents,
        0 <= sender < senders,
    ensures
        document * senders + sender >= 0,
        place_after((document * senders + sender) as nat, senders) == (document, sender),
        !is_done(
            place_after((document * senders + sender) as nat, senders),
            documents,
            senders,
        ),
{
    assert(document * senders >= 0) by (nonlinear_arith)
        requires
            document >= 0,
            senders > 0,
    ;
    let made = (document * senders + sender) as nat;
    law_delivery_order(made, senders);
    lemma_fundamental_div_mod_converse(made as int, senders, document, sender);
}

/// A run is done after as many deliveries as there are documents times
/// destinations, and not before.
pub proof fn law_deliveries_end(made: nat, documents: int, senders: int)
    requires
        documents >= 0,
        senders > 0,
    ensures
        is_done(place_after(made, senders), documents, senders) <==> made >= documents * senders,
{
    law_delivery_order(made, senders);
    lemma_fundamental_div_mod(made as int, senders);
    let q = made as int / senders;
    let r = made as int % senders;
    assert(0 <= r < senders) by {
        vstd::arithmetic::div_mod::lemma_mod_bound(made as int, senders);
    }
    if q >= documents {
        assert(senders * q >= documents * senders) by (nonlinear_arith)
            requires
                q >= documents,
                senders > 0,
        ;
    } else {
        assert(senders * q + r < documents * senders) by (nonlinear_arith)
            requires
                q + 1 <= documents,
                0 <= r < senders,
                senders > 0,
        ;
    }
}

} // verus!
