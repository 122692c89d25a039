use crate::entries::{lemma_insert_distinct, lemma_insert_well_formed, values_well_formed};
use crate::error::{Error, LineColLocation};
use crate::helpers::{
    all_well_formed, extract_param, flattened, lemma_flattened_flat, lemma_insert_all_sound,
    lemma_merge_well_formed,
};
use crate::json::{Json, JsonModel};
use crate::node::{Node, NodeModel};
use crate::rule::{children_fit, children_used, key_of, shape_of, Rule, Shape};
use crate::text::without_leading;
use crate::transform::{
    binary_value, boxed, boxed_bindings, canonical_tag, keyed_value, leaf_value, list_value,
    outcome, pair_list, parameter, parsed_model, query_value, set_of, transform, transform_all,
    unary_value, value_of, variable, MAX_NESTING_DEPTH,
};
use vstd::prelude::*;

verus! {

/// An object of one entry is well formed where its value is.
pub proof fn lemma_single_well_formed(key: Seq<char>, value: JsonModel)
    requires
        value.well_formed(),
    ensures
        JsonModel::single(key, value).well_formed(),
{
}

/// An object of two entries is well formed where its keys differ and its
/// values are well formed.
pub proof fn lemma_pair_well_formed(
    first_key: Seq<char>,
    first: JsonModel,
    second_key: Seq<char>,
    second: JsonModel,
)
    requires
        first_key != second_key,
        first.well_formed(),
        second.well_formed(),
    ensures
        JsonModel::pair(first_key, first, second_key, second).well_formed(),
{
}

/// An array is well formed where its items are.
pub proof fn lemma_array_well_formed(items: Seq<JsonModel>)
    requires
        all_well_formed(items),
    ensures
        JsonModel::Array(items).well_formed(),
{
}

/// The fixed keys that stand together in one object differ from each other.
pub proof fn lemma_fixed_keys_differ()
    ensures
        "@type"@ != "@value"@,
        "rel"@ != "bind"@,
        "from"@ != "bind"@,
        "join"@ != "bind"@,
        "leftJoin"@ != "bind"@,
        "xt:call"@ != "args"@,
{
    reveal_strlit("@type");
    reveal_strlit("@value");
    reveal_strlit("rel");
    reveal_strlit("from");
    reveal_strlit("bind");
    reveal_strlit("join");
    reveal_strlit("leftJoin");
    reveal_strlit("xt:call");
    reveal_strlit("args");
    assert("@type"@.len() != "@value"@.len());
    assert("rel"@.len() != "bind"@.len());
    assert("from"@[0] != "bind"@[0]);
    assert("join"@[0] != "bind"@[0]);
    assert("leftJoin"@.len() != "bind"@.len());
    assert("xt:call"@.len() != "args"@.len());
}

/// Unwrapping a parameter reference keeps a value well formed.
pub proof fn lemma_extract_param_well_formed(value: JsonModel)
    requires
        value.well_formed(),
    ensures
        extract_param(value).well_formed(),
{
    match value {
        JsonModel::Object(entries) => {
            if entries.len() == 1 {
                assert(entries[0].1.well_formed());
            }
        },
        _ => {},
    }
}

/// The value that a rule makes of a text alone is well formed.
pub proof fn lemma_leaf_well_formed(rule: Rule, text: Seq<char>)
    ensures
        leaf_value(rule, text) matches Ok(value) ==> value.well_formed(),
{
    lemma_fixed_keys_differ();
    lemma_array_well_formed(Seq::empty());
    lemma_pair_well_formed(
        "@type"@,
        JsonModel::Str("xt:set"@),
        "@value"@,
        JsonModel::Array(Seq::empty()),
    );
}

/// The value that a rule makes of one well-formed value is well formed.
pub proof fn lemma_unary_well_formed(rule: Rule, value: JsonModel)
    requires
        value.well_formed(),
    ensures
        unary_value(rule, value) matches Ok(made) ==> made.well_formed(),
{
    let name = value.text_or_empty();
    lemma_single_well_formed(key_of(rule), value);
    lemma_single_well_formed(key_of(rule), JsonModel::Str(without_leading(name, ':')));
    lemma_single_well_formed("xt:lvar"@, JsonModel::Str(name));
    lemma_single_well_formed(name, variable(name));
    lemma_single_well_formed("xt:param"@, JsonModel::Str("$"@ + name));
    lemma_single_well_formed(name, JsonModel::single("xt:param"@, JsonModel::Str("$"@ + name)));
}

/// The value that a rule makes of two well-formed values is well formed.
pub proof fn lemma_binary_well_formed(rule: Rule, first: JsonModel, second: JsonModel)
    requires
        first.well_formed(),
        second.well_formed(),
    ensures
        binary_value(rule, first, second) matches Ok(made) ==> made.well_formed(),
{
    lemma_fixed_keys_differ();
    match rule {
        Rule::Rel => {
            lemma_pair_well_formed("rel"@, first, "bind"@, second);
        },
        Rule::From => {
            match second {
                JsonModel::Object(entries) => {
                    lemma_insert_distinct(entries, "from"@, first);
                    lemma_insert_well_formed(entries, "from"@, first);
                },
                _ => {
                    lemma_pair_well_formed("from"@, first, "bind"@, second);
                },
            }
        },
        Rule::TaggedValueExpr => {
            lemma_pair_well_formed("@type"@, canonical_tag(first), "@value"@, second);
        },
        Rule::PullExpr | Rule::ExistsExpr | Rule::PullManyExpr | Rule::SubqueryExpr => {
            let parts = seq![JsonModel::single(key_of(rule), first), second];
            lemma_single_well_formed(key_of(rule), first);
            lemma_merge_well_formed(parts);
        },
        Rule::UnnestTailSpec | Rule::UnnestUnifySpec => {
            lemma_single_well_formed(first.text_or_empty(), second);
        },
        _ => {},
    }
}

/// The value that a rule makes of a list of well-formed values is well formed.
pub proof fn lemma_list_well_formed(rule: Rule, values: Seq<JsonModel>)
    requires
        all_well_formed(values),
        shape_of(rule) is Head ==> values.len() >= 1,
    ensures
        list_value(rule, values) matches Ok(made) ==> made.well_formed(),
{
    lemma_fixed_keys_differ();
    lemma_merge_well_formed(values);
    lemma_flattened_flat(values);
    lemma_array_well_formed(values);
    lemma_array_well_formed(flattened(values));
    lemma_single_well_formed(key_of(rule), JsonModel::Array(values));
    lemma_single_well_formed(key_of(rule), JsonModel::Array(flattened(values)));
    lemma_pair_well_formed(
        "@type"@,
        JsonModel::Str("xt:set"@),
        "@value"@,
        JsonModel::Array(values),
    );
    if values.len() > 0 {
        let rest = values.skip(1);
        assert(values[0].well_formed());
        assert forall|i: int| 0 <= i < rest.len() implies (#[trigger] rest[i]).well_formed() by {
            assert(rest[i] == values[i + 1]);
        }
        lemma_array_well_formed(rest);
        match rule {
            Rule::Join | Rule::LeftJoin => {
                lemma_pair_well_formed(key_of(rule), values[0], "bind"@, JsonModel::Array(rest));
            },
            Rule::CallExpr => {
                lemma_pair_well_formed(key_of(rule), values[0], "args"@, JsonModel::Array(rest));
            },
            _ => {},
        }
    }
}

/// The entries that well-formed values spell out have well-formed values.
pub proof fn lemma_pair_list_well_formed(values: Seq<JsonModel>, prefix: Seq<char>)
    requires
        all_well_formed(values),
    ensures
        values_well_formed(pair_list(values, prefix)),
        all_well_formed(boxed(pair_list(values, prefix))),
        all_well_formed(boxed_bindings(pair_list(values, prefix))),
{
    let pairs = pair_list(values, prefix);
    assert forall|i: int| 0 <= i < pairs.len() implies (#[trigger] pairs[i]).1.well_formed() by {
        assert(pairs[i].1 == values[2 * i + 1]);
    }
    assert forall|i: int| 0 <= i < pairs.len() implies (#[trigger] boxed(
        pairs,
    )[i]).well_formed() by {
        assert(pairs[i].1.well_formed());
        lemma_single_well_formed(pairs[i].0, pairs[i].1);
    }
    assert forall|i: int| 0 <= i < pairs.len() implies (#[trigger] boxed_bindings(
        pairs,
    )[i]).well_formed() by {
        assert(pairs[i].1.well_formed());
        lemma_extract_param_well_formed(pairs[i].1);
        lemma_single_well_formed(pairs[i].0, extract_param(pairs[i].1));
    }
}

/// The value that a rule makes of well-formed keys and values in turn is
/// well formed.
pub proof fn lemma_keyed_well_formed(rule: Rule, values: Seq<JsonModel>)
    requires
        all_well_formed(values),
        shape_of(rule) is HeadPairs ==> values.len() >= 1,
    ensures
        keyed_value(rule, values) matches Ok(made) ==> made.well_formed(),
{
    if rule == Rule::NamespacedBindMap {
        let rest = values.skip(1);
        let prefix = values[0].text_or_empty() + "/"@;
        assert forall|i: int| 0 <= i < rest.len() implies (#[trigger] rest[i]).well_formed() by {
            assert(rest[i] == values[i + 1]);
        }
        lemma_pair_list_well_formed(rest, prefix);
        lemma_insert_all_sound(Seq::empty(), pair_list(rest, prefix));
    } else {
        let pairs = pair_list(values, Seq::empty());
        lemma_pair_list_well_formed(values, Seq::empty());
        lemma_insert_all_sound(Seq::empty(), pairs);
        lemma_array_well_formed(boxed(pairs));
        lemma_array_well_formed(boxed_bindings(pairs));
    }
}

/// The value that a rule makes of well-formed values is well formed.
pub proof fn lemma_value_well_formed(rule: Rule, text: Seq<char>, values: Seq<JsonModel>)
    requires
        all_well_formed(values),
        exists|count: nat|
            children_fit(shape_of(rule), count) && values.len() == children_used(
                shape_of(rule),
                count,
            ),
    ensures
        value_of(rule, text, values) matches Ok(value) ==> value.well_formed(),
{
    match shape_of(rule) {
        Shape::Unsupported => {},
        Shape::Leaf => {
            lemma_leaf_well_formed(rule, text);
        },
        Shape::One => {
            assert(values[0].well_formed());
            lemma_unary_well_formed(rule, values[0]);
        },
        Shape::Two => {
            assert(values[0].well_formed());
            assert(values[1].well_formed());
            lemma_binary_well_formed(rule, values[0], values[1]);
        },
        Shape::Many | Shape::Head => {
            lemma_list_well_formed(rule, values);
        },
        Shape::Pairs | Shape::HeadPairs => {
            lemma_keyed_well_formed(rule, values);
        },
    }
}

/// Every value that the transformation gives is well formed: no object in
/// it holds a key twice.
pub proof fn lemma_transform_well_formed(node: NodeModel, depth: nat)
    ensures
        transform(node, depth) matches Ok(value) ==> value.well_formed(),
    decreases depth, 0nat,
{
    let shape = shape_of(node.rule);
    if depth > 0 && !(shape is Unsupported) && children_fit(shape, node.children.len()) {
        let used = node.children.take(children_used(shape, node.children.len()) as int);
        lemma_transform_all_well_formed(used, (depth - 1) as nat);
        if let Ok(values) = transform_all(used, (depth - 1) as nat) {
            lemma_transform_all_len(used, (depth - 1) as nat);
            lemma_value_well_formed(node.rule, node.text, values);
        }
    }
}

/// Every value that the transformation gives for one of several trees is
/// well formed.
pub proof fn lemma_transform_all_well_formed(nodes: Seq<NodeModel>, depth: nat)
    ensures
        transform_all(nodes, depth) matches Ok(values) ==> all_well_formed(values),
    decreases depth, 1 + nodes.len(),
{
    if nodes.len() > 0 {
        lemma_transform_all_well_formed(nodes.drop_last(), depth);
        lemma_transform_well_formed(nodes.last(), depth);
    }
}

/// The transformation gives one value for each tree.
pub proof fn lemma_transform_all_len(nodes: Seq<NodeModel>, depth: nat)
    ensures
        transform_all(nodes, depth) matches Ok(values) ==> values.len() == nodes.len(),
    decreases nodes.len(),
{
    if nodes.len() > 0 {
        lemma_transform_all_len(nodes.drop_last(), depth);
    }
}

/// Determinism: whatever two runs of [`parse_value`] return for trees with
/// one model, they return the same error or values with one model.
pub proof fn lemma_parse_value_deterministic(
    first: Node,
    second: Node,
    first_out: Result<Json, Error>,
    second_out: Result<Json, Error>,
)
    requires
        first@ == second@,
        outcome(first_out) == transform(first@, MAX_NESTING_DEPTH as nat),
        outcome(second_out) == transform(second@, MAX_NESTING_DEPTH as nat),
    ensures
        outcome(first_out) == outcome(second_out),
{
}

/// Determinism: whatever two runs of [`parse_xtql`] return for what the
/// grammar made of one text, they return the same error or values with one
/// model.
pub proof fn lemma_parse_xtql_deterministic(
    first: Result<Vec<Node>, LineColLocation>,
    second: Result<Vec<Node>, LineColLocation>,
    first_out: Result<Json, Error>,
    second_out: Result<Json, Error>,
)
    requires
        parsed_model(first) == parsed_model(second),
        outcome(first_out) == query_value(parsed_model(first)),
        outcome(second_out) == query_value(parsed_model(second)),
    ensures
        outcome(first_out) == outcome(second_out),
{
}

/// The values of the first two of some trees, where both have one.
pub proof fn lemma_transform_two(
    nodes: Seq<NodeModel>,
    depth: nat,
    first: JsonModel,
    second: JsonModel,
)
    requires
        nodes.len() >= 2,
        transform(nodes[0], depth) == Ok::<JsonModel, Error>(first),
        transform(nodes[1], depth) == Ok::<JsonModel, Error>(second),
    ensures
        transform_all(nodes.take(2), depth) == Ok::<Seq<JsonModel>, Error>(seq![first, second]),
{
    let two = nodes.take(2);
    let one = two.drop_last();
    assert(one.drop_last() =~= Seq::<NodeModel>::empty());
    assert(one.last() == nodes[0]);
    assert(two.last() == nodes[1]);
    assert(transform_all(one.drop_last(), depth) == Ok::<Seq<JsonModel>, Error>(Seq::empty()));
    assert(transform_all(one, depth) == Ok::<Seq<JsonModel>, Error>(
        Seq::<JsonModel>::empty().push(first),
    ));
    assert(Seq::<JsonModel>::empty().push(first).push(second) =~= seq![first, second]);
}

/// Tag canonicalization: a tagged literal whose tag reads `inst` has the
/// type `xt:instant`; one whose tag reads `time/date` or `instant` has the
/// type `xt:date`; any other tag is the type as it stands. The value is
/// that of the second child.
pub proof fn lemma_tagged_literal(node: NodeModel, depth: nat, tag: Seq<char>, value: JsonModel)
    requires
        node.rule == Rule::TaggedValueExpr,
        node.children.len() >= 2,
        depth > 0,
        transform(node.children[0], (depth - 1) as nat) == Ok::<JsonModel, Error>(
            JsonModel::Str(tag),
        ),
        transform(node.children[1], (depth - 1) as nat) == Ok::<JsonModel, Error>(value),
    ensures
        tag == "inst"@ ==> transform(node, depth) == Ok::<JsonModel, Error>(
            JsonModel::pair("@type"@, JsonModel::Str("xt:instant"@), "@value"@, value),
        ),
        tag == "time/date"@ || tag == "instant"@ ==> transform(node, depth) == Ok::<
            JsonModel,
            Error,
        >(JsonModel::pair("@type"@, JsonModel::Str("xt:date"@), "@value"@, value)),
        tag != "inst"@ && tag != "time/date"@ && tag != "instant"@ ==> transform(node, depth)
            == Ok::<JsonModel, Error>(
            JsonModel::pair("@type"@, JsonModel::Str(tag), "@value"@, value),
        ),
{
    reveal_strlit("inst");
    reveal_strlit("time/date");
    reveal_strlit("instant");
    assert("inst"@.len() != "time/date"@.len());
    assert("inst"@.len() != "instant"@.len());
    lemma_transform_two(node.children, (depth - 1) as nat, JsonModel::Str(tag), value);
}

/// Empty literals: the empty set, the empty vector and the empty map have
/// three different values, and the set is a typed literal with no items.
pub proof fn lemma_empty_literals(set: NodeModel, vector: NodeModel, map: NodeModel, depth: nat)
    requires
        depth > 0,
        set.rule == Rule::EmptySetExpr,
        vector.rule == Rule::EmptyVectorExpr,
        map.rule == Rule::EmptyMapExpr,
    ensures
        transform(set, depth) == Ok::<JsonModel, Error>(
            JsonModel::pair(
                "@type"@,
                JsonModel::Str("xt:set"@),
                "@value"@,
                JsonModel::Array(Seq::empty()),
            ),
        ),
        transform(vector, depth) == Ok::<JsonModel, Error>(JsonModel::Array(Seq::empty())),
        transform(map, depth) == Ok::<JsonModel, Error>(JsonModel::Object(Seq::empty())),
        transform(set, depth) != transform(vector, depth),
        transform(set, depth) != transform(map, depth),
        transform(vector, depth) != transform(map, depth),
{
    assert(set.children.take(0) =~= Seq::<NodeModel>::empty());
    assert(vector.children.take(0) =~= Seq::<NodeModel>::empty());
    assert(map.children.take(0) =~= Seq::<NodeModel>::empty());
    let typed = set_of(Seq::empty());
    assert(typed->Object_0.len() == 2);
}

/// The depth only limits: a tree that has a value when followed to some
/// depth has the same value when followed deeper.
pub proof fn lemma_transform_deeper(node: NodeModel, depth: nat)
    requires
        transform(node, depth) is Ok,
    ensures
        transform(node, depth + 1) == transform(node, depth),
    decreases depth, 0nat,
{
    let shape = shape_of(node.rule);
    let used = node.children.take(children_used(shape, node.children.len()) as int);
    lemma_transform_all_deeper(used, (depth - 1) as nat);
}

/// The depth only limits: trees that all have a value when followed to
/// some depth have the same values when followed deeper.
pub proof fn lemma_transform_all_deeper(nodes: Seq<NodeModel>, depth: nat)
    requires
        transform_all(nodes, depth) is Ok,
    ensures
        transform_all(nodes, depth + 1) == transform_all(nodes, depth),
    decreases depth, 1 + nodes.len(),
{
    if nodes.len() > 0 {
        lemma_transform_all_deeper(nodes.drop_last(), depth);
        lemma_transform_deeper(nodes.last(), depth);
    }
}

} // verus!
