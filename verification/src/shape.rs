use crate::error::Error;
use crate::json::JsonModel;
use crate::node::NodeModel;
use crate::number::{float_text, i64_value, json_u64_value, FloatText};
use crate::rule::{children_fit, children_used, shape_of, Rule, Shape};
use crate::text::trimmed;
use crate::transform::{keys_are_text, transform, transform_all, value_of};
use vstd::prelude::*;

verus! {

/// Whether `text` is one that a node of the leaf rule `rule` can span: a
/// column or keyword has its sigil, a number is written as its rule reads
/// it, a boolean is one of the two words.
pub open spec fn text_fits(rule: Rule, text: Seq<char>) -> bool {
    match rule {
        Rule::Column | Rule::Keyword => text.len() > 0,
        Rule::NonNegativeInteger => json_u64_value(text) is Some,
        Rule::I64 => i64_value(trimmed(text)) is Some,
        Rule::F64 => float_text(trimmed(text)) != FloatText::Invalid,
        Rule::Bool => text == "true"@ || text == "false"@,
        _ => true,
    }
}

/// Whether the tree `node`, followed no deeper than `depth` nodes, is a
/// name: a leaf whose value is its text, or a node that stands for its
/// first child, which is a name.
pub open spec fn yields_text(node: NodeModel, depth: nat) -> bool
    decreases depth,
{
    depth > 0 && match node.rule {
        Rule::Symbol | Rule::StringContent | Rule::Direction | Rule::NullOrdering => true,
        Rule::Column | Rule::Keyword => node.text.len() > 0,
        Rule::Table | Rule::FromOpts | Rule::FromOptionVec | Rule::OrderByCol | Rule::MapKey
        | Rule::String | Rule::Function | Rule::LogicVar | Rule::ArgSpec | Rule::Namespace =>
            node.children.len() >= 1 && yields_text(node.children[0], (depth - 1) as nat),
        _ => false,
    }
}

/// Whether the children of `node` that its rule reads as names are names:
/// the keys of a map, the namespace in front of one, the name of a
/// parameter or of a bound column.
pub open spec fn names_fit(node: NodeModel, depth: nat) -> bool
    recommends
        depth > 0,
{
    match shape_of(node.rule) {
        Shape::Pairs => forall|i: int|
            0 <= i < node.children.len() && i % 2 == 0 ==> yields_text(
                #[trigger] node.children[i],
                (depth - 1) as nat,
            ),
        Shape::HeadPairs => forall|i: int|
            0 <= i < node.children.len() && (i == 0 || i % 2 == 1) ==> yields_text(
                #[trigger] node.children[i],
                (depth - 1) as nat,
            ),
        _ => match node.rule {
            Rule::BindVar | Rule::ParamExpr | Rule::UnnestTailSpec | Rule::UnnestUnifySpec =>
                yields_text(node.children[0], (depth - 1) as nat),
            _ => true,
        },
    }
}

/// Whether the tree `node` has the shape that its rules ask for, down to no
/// more than `depth` nodes: every node that is read has a rule with a
/// value, as many children as the rule takes, a text that the rule can
/// read, and names where the rule reads names.
pub open spec fn well_shaped(node: NodeModel, depth: nat) -> bool
    decreases depth,
{
    let shape = shape_of(node.rule);
    &&& depth > 0
    &&& children_fit(shape, node.children.len())
    &&& (shape is Leaf ==> text_fits(node.rule, node.text))
    &&& names_fit(node, depth)
    &&& forall|i: int|
        0 <= i < children_used(shape, node.children.len()) ==> well_shaped(
            #[trigger] node.children[i],
            (depth - 1) as nat,
        )
}

/// The values of several trees are the values of each, in order; they have
/// none where one of the trees has none.
pub proof fn lemma_transform_all_items(nodes: Seq<NodeModel>, depth: nat)
    ensures
        match transform_all(nodes, depth) {
            Ok(values) => values.len() == nodes.len() && forall|i: int|
                0 <= i < nodes.len() ==> transform(#[trigger] nodes[i], depth) == Ok::<
                    JsonModel,
                    Error,
                >(values[i]),
            Err(_) => exists|i: int| 0 <= i < nodes.len() && transform(nodes[i], depth) is Err,
        },
    decreases nodes.len(),
{
    if nodes.len() > 0 {
        let front = nodes.drop_last();
        lemma_transform_all_items(front, depth);
        match transform_all(front, depth) {
            Ok(values) => {
                match transform(nodes.last(), depth) {
                    Ok(value) => {
                        let all = values.push(value);
                        assert forall|i: int| 0 <= i < nodes.len() implies transform(
                            #[trigger] nodes[i],
                            depth,
                        ) == Ok::<JsonModel, Error>(all[i]) by {
                            if i < front.len() {
                                assert(nodes[i] == front[i]);
                            }
                        }
                    },
                    Err(_) => {
                        assert(transform(nodes[nodes.len() - 1], depth) is Err);
                    },
                }
            },
            Err(_) => {
                let i = choose|i: int| 0 <= i < front.len() && transform(front[i], depth) is Err;
                assert(nodes[i] == front[i]);
            },
        }
    }
}

/// The value of the first of some trees, where it has one, is the first of
/// the values of them all.
proof fn lemma_first_value(nodes: Seq<NodeModel>, depth: nat)
    requires
        nodes.len() >= 1,
        transform(nodes[0], depth) is Ok,
    ensures
        transform_all(nodes.take(1), depth) == Ok::<Seq<JsonModel>, Error>(
            seq![transform(nodes[0], depth)->Ok_0],
        ),
{
    let one = nodes.take(1);
    assert(one[0] == nodes[0]);
    lemma_transform_all_items(one, depth);
    assert(transform_all(one, depth)->Ok_0 =~= seq![transform(nodes[0], depth)->Ok_0]);
}

/// A name has a value, and it is a string.
pub proof fn lemma_name_is_text(node: NodeModel, depth: nat)
    requires
        yields_text(node, depth),
    ensures
        transform(node, depth) is Ok,
        transform(node, depth)->Ok_0 is Str,
    decreases depth,
{
    match shape_of(node.rule) {
        Shape::One => {
            lemma_name_is_text(node.children[0], (depth - 1) as nat);
            lemma_first_value(node.children, (depth - 1) as nat);
        },
        _ => {
            assert(node.children.take(0) =~= Seq::<NodeModel>::empty());
        },
    }
}

/// A tree of the shape that its rules ask for has a value.
pub proof fn lemma_well_shaped_has_value(node: NodeModel, depth: nat)
    requires
        well_shaped(node, depth),
    ensures
        transform(node, depth) is Ok,
    decreases depth,
{
    let shape = shape_of(node.rule);
    let below = (depth - 1) as nat;
    let used = node.children.take(children_used(shape, node.children.len()) as int);
    assert forall|i: int| 0 <= i < used.len() implies transform(
        #[trigger] used[i],
        below,
    ) is Ok by {
        assert(used[i] == node.children[i]);
        lemma_well_shaped_has_value(node.children[i], below);
    }
    lemma_transform_all_items(used, below);
    let values = transform_all(used, below)->Ok_0;
    assert forall|i: int| 0 <= i < used.len() && yields_text(node.children[i], below) implies (
    #[trigger] values[i]) is Str by {
        assert(used[i] == node.children[i]);
        lemma_name_is_text(node.children[i], below);
    }
    match shape {
        Shape::Pairs => {
            assert(keys_are_text(values)) by {
                assert forall|i: int| 0 <= i < values.len() && i % 2 == 0 implies (
                #[trigger] values[i]) is Str by {
                    assert(yields_text(node.children[i], below));
                }
            }
        },
        Shape::HeadPairs => {
            assert(yields_text(node.children[0], below));
            assert(values[0] is Str);
            let rest = values.skip(1);
            assert(keys_are_text(rest)) by {
                assert forall|i: int| 0 <= i < rest.len() && i % 2 == 0 implies (
                #[trigger] rest[i]) is Str by {
                    assert(rest[i] == values[i + 1]);
                    assert(yields_text(node.children[i + 1], below));
                }
            }
        },
        Shape::One | Shape::Two => {
            assert(used[0] == node.children[0]);
            if node.rule == Rule::BindVar || node.rule == Rule::ParamExpr || node.rule
                == Rule::UnnestTailSpec || node.rule == Rule::UnnestUnifySpec {
                assert(yields_text(node.children[0], below));
                assert(values[0] is Str);
            }
        },
        _ => {},
    }
    assert(value_of(node.rule, node.text, values) is Ok);
}

} // verus!
