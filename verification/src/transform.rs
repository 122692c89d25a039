use crate::entries::{insert, insert_entry};
use crate::error::{Error, LineColLocation};
use crate::helpers::{
    extract_param, extract_xt_param_value, flatten_json_array, flattened, insert_all, merge,
    merge_json_objects,
};
use crate::json::{Json, JsonModel};
use crate::laws::lemma_transform_well_formed;
use crate::node::{Node, NodeModel};
use crate::number::{
    classify_float, float_text, i64_value, json_u64, json_u64_value, parse_i64, FloatText,
};
use crate::rule::{
    children_fit, children_used, fits, key_for, key_of, shape, shape_of, used, Rule, Shape,
};
use crate::shape::{lemma_well_shaped_has_value, well_shaped};
use crate::text::{join, same_text, strip_first, strip_leading, trim, trimmed, without_leading};
use vstd::prelude::*;
use vstd::string::*;

verus! {

/// How deep a tree may be nested for [`parse_value`] to transform it: the
/// longest chain of nodes, each inside the one before, that it follows.
pub const MAX_NESTING_DEPTH: usize = 512;

/// The outcome of a transformation with the value, where there is one,
/// replaced by its model.
pub open spec fn outcome(result: Result<Json, Error>) -> Result<JsonModel, Error> {
    match result {
        Ok(value) => Ok(value@),
        Err(error) => Err(error),
    }
}

/// The typed literal for a set of `items`.
pub open spec fn set_of(items: Seq<JsonModel>) -> JsonModel {
    JsonModel::pair("@type"@, JsonModel::Str("xt:set"@), "@value"@, JsonModel::Array(items))
}

/// The reference to the logic variable `name`.
pub open spec fn variable(name: Seq<char>) -> JsonModel {
    JsonModel::single("xt:lvar"@, JsonModel::Str(name))
}

/// The column `name` bound to the logic variable of the same name.
pub open spec fn binding(name: Seq<char>) -> JsonModel {
    JsonModel::single(name, variable(name))
}

/// The reference to the parameter `name`.
pub open spec fn parameter(name: Seq<char>) -> JsonModel {
    JsonModel::single(name, JsonModel::single("xt:param"@, JsonModel::Str("$"@ + name)))
}

/// The tag of a typed literal as the query engine knows it: the spellings
/// of dates and instants made one, any other tag as it is.
pub open spec fn canonical_tag(tag: JsonModel) -> JsonModel {
    match tag {
        JsonModel::Str(text) => if text == "time/date"@ || text == "instant"@ {
            JsonModel::Str("xt:date"@)
        } else if text == "inst"@ {
            JsonModel::Str("xt:instant"@)
        } else {
            tag
        },
        _ => tag,
    }
}

/// The value of a node that has none but its text.
pub open spec fn leaf_value(rule: Rule, text: Seq<char>) -> Result<JsonModel, Error> {
    match rule {
        Rule::EmptyMapExpr => Ok(JsonModel::Object(Seq::empty())),
        Rule::EmptyVectorExpr => Ok(JsonModel::Array(Seq::empty())),
        Rule::EmptySetExpr => Ok(set_of(Seq::empty())),
        Rule::Column | Rule::Keyword => if text.len() > 0 {
            Ok(JsonModel::Str(text.drop_first()))
        } else {
            Err(Error::ContractViolation(rule))
        },
        Rule::Symbol | Rule::StringContent | Rule::Direction | Rule::NullOrdering => Ok(
            JsonModel::Str(text),
        ),
        Rule::NonNegativeInteger => match json_u64_value(text) {
            Some(n) => Ok(JsonModel::Int(n as int)),
            None => Err(Error::ContractViolation(rule)),
        },
        Rule::I64 => match i64_value(trimmed(text)) {
            Some(n) => Ok(JsonModel::Int(n as int)),
            None => Err(Error::ContractViolation(rule)),
        },
        Rule::F64 => match float_text(trimmed(text)) {
            FloatText::Decimal => Ok(JsonModel::Float(trimmed(text))),
            FloatText::Special => Ok(JsonModel::Null),
            FloatText::Invalid => Err(Error::ContractViolation(rule)),
        },
        Rule::Bool => if text == "true"@ {
            Ok(JsonModel::Bool(true))
        } else if text == "false"@ {
            Ok(JsonModel::Bool(false))
        } else {
            Err(Error::ContractViolation(rule))
        },
        Rule::Nil => Ok(JsonModel::Null),
        _ => Err(Error::UnsupportedConstruct(rule)),
    }
}

/// The value of a node that is made from the value of its first child.
pub open spec fn unary_value(rule: Rule, value: JsonModel) -> Result<JsonModel, Error> {
    match rule {
        Rule::Table | Rule::FromOpts | Rule::FromOptionVec | Rule::OrderByCol | Rule::MapKey
        | Rule::String | Rule::Function | Rule::LogicVar | Rule::ArgSpec | Rule::Namespace => Ok(
            value,
        ),
        Rule::GroupingVar | Rule::VariableExpr | Rule::OrderBySpecMapVal | Rule::AtTempFilter
        | Rule::FromTempFilter | Rule::ToTempFilter | Rule::ValidTimeKV | Rule::SystemTimeKV
        | Rule::Limit | Rule::Offset | Rule::BindKV | Rule::UnnestTail | Rule::UnnestUnify
        | Rule::Args => Ok(JsonModel::single(key_of(rule), value)),
        Rule::OrderBySpecMapDir | Rule::OrderBySpecMapNulls => Ok(
            JsonModel::single(
                key_of(rule),
                JsonModel::Str(without_leading(value.text_or_empty(), ':')),
            ),
        ),
        Rule::ReturnVar => Ok(binding(value.text_or_empty())),
        Rule::BindVar => match value {
            JsonModel::Str(name) => Ok(binding(name)),
            _ => Err(Error::ContractViolation(rule)),
        },
        Rule::ParamExpr => match value {
            JsonModel::Str(name) => Ok(parameter(name)),
            _ => Err(Error::ContractViolation(rule)),
        },
        _ => Err(Error::UnsupportedConstruct(rule)),
    }
}

/// The value of a node that is made from the values of its first two children.
pub open spec fn binary_value(rule: Rule, first: JsonModel, second: JsonModel) -> Result<
    JsonModel,
    Error,
> {
    match rule {
        Rule::Rel => Ok(JsonModel::pair("rel"@, first, "bind"@, second)),
        Rule::From => match second {
            JsonModel::Object(entries) => Ok(JsonModel::Object(insert(entries, "from"@, first))),
            _ => Ok(JsonModel::pair("from"@, first, "bind"@, second)),
        },
        Rule::TaggedValueExpr => Ok(
            JsonModel::pair("@type"@, canonical_tag(first), "@value"@, second),
        ),
        Rule::PullExpr | Rule::ExistsExpr | Rule::PullManyExpr | Rule::SubqueryExpr => Ok(
            merge(seq![JsonModel::single(key_of(rule), first), second]),
        ),
        Rule::UnnestTailSpec | Rule::UnnestUnifySpec => match first {
            JsonModel::Str(name) => Ok(JsonModel::single(name, second)),
            _ => Err(Error::ContractViolation(rule)),
        },
        _ => Err(Error::UnsupportedConstruct(rule)),
    }
}

/// The value of a node that is made from the values of all its children.
pub open spec fn list_value(rule: Rule, values: Seq<JsonModel>) -> Result<JsonModel, Error> {
    match rule {
        Rule::Pipeline | Rule::NonEmptyVectorExpr => Ok(JsonModel::Array(values)),
        Rule::Unify | Rule::WithUnify | Rule::WithTail | Rule::OrderBy | Rule::Return
        | Rule::InTempFilter | Rule::Where | Rule::Without => Ok(
            JsonModel::single(key_of(rule), JsonModel::Array(values)),
        ),
        Rule::FromOptsMap | Rule::OrderBySpecMap => Ok(merge(values)),
        Rule::Aggregate => Ok(
            JsonModel::single(key_of(rule), JsonModel::Array(flattened(values))),
        ),
        Rule::ArgSpecs | Rule::BindSpecs => Ok(JsonModel::Array(flattened(values))),
        Rule::NonEmptySetExpr => Ok(set_of(values)),
        Rule::Join | Rule::LeftJoin => Ok(
            JsonModel::pair(key_of(rule), values[0], "bind"@, JsonModel::Array(values.skip(1))),
        ),
        Rule::CallExpr => Ok(
            JsonModel::pair(key_of(rule), values[0], "args"@, JsonModel::Array(values.skip(1))),
        ),
        _ => Err(Error::UnsupportedConstruct(rule)),
    }
}

/// Whether every key among `values`, which are keys and values in turn, is
/// a string.
pub open spec fn keys_are_text(values: Seq<JsonModel>) -> bool {
    forall|i: int| 0 <= i < values.len() && i % 2 == 0 ==> (#[trigger] values[i]) is Str
}

/// The entries that `values` spell out, keys and values in turn, each key
/// with `prefix` in front of it.
pub open spec fn pair_list(values: Seq<JsonModel>, prefix: Seq<char>) -> Seq<
    (Seq<char>, JsonModel),
> {
    Seq::new(
        values.len() / 2,
        |i: int| (prefix + values[2 * i].text_or_empty(), values[2 * i + 1]),
    )
}

/// One object for each of `entries`, holding that entry alone.
pub open spec fn boxed(entries: Seq<(Seq<char>, JsonModel)>) -> Seq<JsonModel> {
    Seq::new(entries.len(), |i: int| JsonModel::single(entries[i].0, entries[i].1))
}

/// One object for each of `entries`, holding that entry alone with its
/// value unwrapped where it is a parameter reference.
pub open spec fn boxed_bindings(entries: Seq<(Seq<char>, JsonModel)>) -> Seq<JsonModel> {
    Seq::new(entries.len(), |i: int| JsonModel::single(entries[i].0, extract_param(entries[i].1)))
}

/// The value of a node whose children are keys and values in turn.
pub open spec fn keyed_value(rule: Rule, values: Seq<JsonModel>) -> Result<JsonModel, Error> {
    match rule {
        Rule::MapExpr | Rule::NonEmptyMapExpr | Rule::WithTailMap | Rule::WithUnifyMap
        | Rule::ReturnMap => if keys_are_text(values) {
            Ok(JsonModel::Object(insert_all(Seq::empty(), pair_list(values, Seq::empty()))))
        } else {
            Err(Error::ContractViolation(rule))
        },
        Rule::GroupingMap => if keys_are_text(values) {
            Ok(JsonModel::Array(boxed(pair_list(values, Seq::empty()))))
        } else {
            Err(Error::ContractViolation(rule))
        },
        Rule::BindMap => if keys_are_text(values) {
            Ok(JsonModel::Array(boxed_bindings(pair_list(values, Seq::empty()))))
        } else {
            Err(Error::ContractViolation(rule))
        },
        Rule::NamespacedBindMap => if values[0] is Str && keys_are_text(values.skip(1)) {
            Ok(
                JsonModel::Object(
                    insert_all(
                        Seq::empty(),
                        pair_list(values.skip(1), values[0].text_or_empty() + "/"@),
                    ),
                ),
            )
        } else {
            Err(Error::ContractViolation(rule))
        },
        _ => Err(Error::UnsupportedConstruct(rule)),
    }
}

/// The value of a node of `rule` that spans `text`, made from `values`: the
/// values of the children that the rule uses.
pub open spec fn value_of(rule: Rule, text: Seq<char>, values: Seq<JsonModel>) -> Result<
    JsonModel,
    Error,
> {
    match shape_of(rule) {
        Shape::Unsupported => Err(Error::UnsupportedConstruct(rule)),
        Shape::Leaf => leaf_value(rule, text),
        Shape::One => unary_value(rule, values[0]),
        Shape::Two => binary_value(rule, values[0], values[1]),
        Shape::Many | Shape::Head => list_value(rule, values),
        Shape::Pairs | Shape::HeadPairs => keyed_value(rule, values),
    }
}

/// The value of the tree `node`, followed no deeper than `depth` nodes.
///
/// A node of a rule without a value, a node with too few children or with a
/// number of them that its rule does not take, and a tree nested deeper
/// than `depth` have no value; nor has a node one of whose children has
/// none, and the error is then that of the first such child.
pub open spec fn transform(node: NodeModel, depth: nat) -> Result<JsonModel, Error>
    decreases depth, 0nat,
{
    let shape = shape_of(node.rule);
    if depth == 0 {
        Err(Error::NestingTooDeep)
    } else if shape is Unsupported {
        Err(Error::UnsupportedConstruct(node.rule))
    } else if !children_fit(shape, node.children.len()) {
        Err(Error::ContractViolation(node.rule))
    } else {
        match transform_all(
            node.children.take(children_used(shape, node.children.len()) as int),
            (depth - 1) as nat,
        ) {
            Ok(values) => value_of(node.rule, node.text, values),
            Err(error) => Err(error),
        }
    }
}

/// The values of the trees `nodes`, in order, or the error of the first
/// that has no value.
pub open spec fn transform_all(nodes: Seq<NodeModel>, depth: nat) -> Result<
    Seq<JsonModel>,
    Error,
>
    decreases depth, 1 + nodes.len(),
{
    if nodes.len() == 0 {
        Ok(Seq::empty())
    } else {
        match transform_all(nodes.drop_last(), depth) {
            Ok(front) => match transform(nodes.last(), depth) {
                Ok(value) => Ok(front.push(value)),
                Err(error) => Err(error),
            },
            Err(error) => Err(error),
        }
    }
}

/// The text of a string; empty for any other value.
fn text_of(value: Json) -> (text: String)
    ensures
        text@ == value@.text_or_empty(),
{
    match value {
        Json::Str(text) => text,
        _ => String::new(),
    }
}

/// The typed literal for a set of `items`.
fn set_literal(items: Vec<Json>) -> (value: Json)
    ensures
        value@ == set_of(items.deep_view()),
{
    Json::pair(
        String::from_str("@type"),
        Json::string("xt:set"),
        String::from_str("@value"),
        Json::array(items),
    )
}

/// The column `name` bound to the logic variable of the same name.
fn binding_of(name: String) -> (value: Json)
    ensures
        value@ == binding(name@),
{
    let key = name.clone();
    Json::single(key, Json::single(String::from_str("xt:lvar"), Json::Str(name)))
}

/// The reference to the parameter `name`.
fn parameter_of(name: String) -> (value: Json)
    ensures
        value@ == parameter(name@),
{
    let marked = join("$", name.as_str());
    Json::single(name, Json::single(String::from_str("xt:param"), Json::Str(marked)))
}

/// The tag of a typed literal as the query engine knows it.
fn canonical_tag_of(tag: Json) -> (value: Json)
    ensures
        value@ == canonical_tag(tag@),
{
    match tag {
        Json::Str(text) => {
            if same_text(&text, "time/date") || same_text(&text, "instant") {
                Json::string("xt:date")
            } else if same_text(&text, "inst") {
                Json::string("xt:instant")
            } else {
                Json::Str(text)
            }
        },
        other => other,
    }
}

/// The value of a node that has none but its text.
fn build_leaf(rule: Rule, text: &String) -> (out: Result<Json, Error>)
    ensures
        outcome(out) == leaf_value(rule, text@),
{
    match rule {
        Rule::EmptyMapExpr => {
            let entries: Vec<(String, Json)> = Vec::new();
            proof {
                Json::lemma_object_view(entries);
                assert(entries.deep_view() =~= Seq::empty());
            }
            Ok(Json::Object(entries))
        },
        Rule::EmptyVectorExpr => {
            let items: Vec<Json> = Vec::new();
            assert(items.deep_view() =~= Seq::empty());
            Ok(Json::array(items))
        },
        Rule::EmptySetExpr => {
            let items: Vec<Json> = Vec::new();
            assert(items.deep_view() =~= Seq::empty());
            Ok(set_literal(items))
        },
        Rule::Column | Rule::Keyword => match strip_first(text.as_str()) {
            Some(name) => Ok(Json::Str(name)),
            None => Err(Error::ContractViolation(rule)),
        },
        Rule::Symbol | Rule::StringContent | Rule::Direction | Rule::NullOrdering => Ok(
            Json::Str(text.clone()),
        ),
        Rule::NonNegativeInteger => match json_u64(text.as_str()) {
            Some(n) => Ok(Json::Int(n as i128)),
            None => Err(Error::ContractViolation(rule)),
        },
        Rule::I64 => {
            let digits = trim(text.as_str());
            match parse_i64(digits.as_str()) {
                Some(n) => Ok(Json::Int(n as i128)),
                None => Err(Error::ContractViolation(rule)),
            }
        },
        Rule::F64 => {
            let literal = trim(text.as_str());
            match classify_float(literal.as_str()) {
                FloatText::Decimal => Ok(Json::Float(literal)),
                FloatText::Special => Ok(Json::Null),
                FloatText::Invalid => Err(Error::ContractViolation(rule)),
            }
        },
        Rule::Bool => {
            if same_text(text, "true") {
                Ok(Json::Bool(true))
            } else if same_text(text, "false") {
                Ok(Json::Bool(false))
            } else {
                Err(Error::ContractViolation(rule))
            }
        },
        Rule::Nil => Ok(Json::Null),
        _ => Err(Error::UnsupportedConstruct(rule)),
    }
}

/// The value of a node that is made from the value of its first child.
fn build_unary(rule: Rule, value: Json) -> (out: Result<Json, Error>)
    ensures
        outcome(out) == unary_value(rule, value@),
{
    match rule {
        Rule::Table | Rule::FromOpts | Rule::FromOptionVec | Rule::OrderByCol | Rule::MapKey
        | Rule::String | Rule::Function | Rule::LogicVar | Rule::ArgSpec | Rule::Namespace => Ok(
            value,
        ),
        Rule::GroupingVar | Rule::VariableExpr | Rule::OrderBySpecMapVal | Rule::AtTempFilter
        | Rule::FromTempFilter | Rule::ToTempFilter | Rule::ValidTimeKV | Rule::SystemTimeKV
        | Rule::Limit | Rule::Offset | Rule::BindKV | Rule::UnnestTail | Rule::UnnestUnify
        | Rule::Args => Ok(Json::single(String::from_str(key_for(rule)), value)),
        Rule::OrderBySpecMapDir | Rule::OrderBySpecMapNulls => {
            let text = text_of(value);
            let word = strip_leading(text.as_str(), ':');
            Ok(Json::single(String::from_str(key_for(rule)), Json::Str(word)))
        },
        Rule::ReturnVar => Ok(binding_of(text_of(value))),
        Rule::BindVar => match value {
            Json::Str(name) => Ok(binding_of(name)),
            _ => Err(Error::ContractViolation(rule)),
        },
        Rule::ParamExpr => match value {
            Json::Str(name) => Ok(parameter_of(name)),
            _ => Err(Error::ContractViolation(rule)),
        },
        _ => Err(Error::UnsupportedConstruct(rule)),
    }
}

/// The value of a node that is made from the values of its first two children.
fn build_binary(rule: Rule, first: Json, second: Json) -> (out: Result<Json, Error>)
    ensures
        outcome(out) == binary_value(rule, first@, second@),
{
    match rule {
        Rule::Rel => Ok(
            Json::pair(String::from_str("rel"), first, String::from_str("bind"), second),
        ),
        Rule::From => match second {
            Json::Object(entries) => {
                let mut entries = entries;
                proof {
                    Json::lemma_object_view(entries);
                }
                insert_entry(&mut entries, String::from_str("from"), first);
                proof {
                    Json::lemma_object_view(entries);
                }
                Ok(Json::Object(entries))
            },
            other => Ok(
                Json::pair(String::from_str("from"), first, String::from_str("bind"), other),
            ),
        },
        Rule::TaggedValueExpr => Ok(
            Json::pair(
                String::from_str("@type"),
                canonical_tag_of(first),
                String::from_str("@value"),
                second,
            ),
        ),
        Rule::PullExpr | Rule::ExistsExpr | Rule::PullManyExpr | Rule::SubqueryExpr => {
            let mut parts: Vec<Json> = Vec::new();
            parts.push(Json::single(String::from_str(key_for(rule)), first));
            parts.push(second);
            assert(parts.deep_view() =~= seq![JsonModel::single(key_of(rule), first@), second@]);
            Ok(merge_json_objects(parts))
        },
        Rule::UnnestTailSpec | Rule::UnnestUnifySpec => match first {
            Json::Str(name) => Ok(Json::single(name, second)),
            _ => Err(Error::ContractViolation(rule)),
        },
        _ => Err(Error::UnsupportedConstruct(rule)),
    }
}

/// The value of a node that is made from the values of all its children.
fn build_list(rule: Rule, values: Vec<Json>) -> (out: Result<Json, Error>)
    requires
        shape_of(rule) is Head ==> values.len() >= 1,
    ensures
        outcome(out) == list_value(rule, values.deep_view()),
{
    match rule {
        Rule::Pipeline | Rule::NonEmptyVectorExpr => Ok(Json::array(values)),
        Rule::Unify | Rule::WithUnify | Rule::WithTail | Rule::OrderBy | Rule::Return
        | Rule::InTempFilter | Rule::Where | Rule::Without => Ok(
            Json::single(String::from_str(key_for(rule)), Json::array(values)),
        ),
        Rule::FromOptsMap | Rule::OrderBySpecMap => Ok(merge_json_objects(values)),
        Rule::Aggregate => {
            let flat = flatten_json_array(values.as_slice());
            Ok(Json::single(String::from_str(key_for(rule)), Json::array(flat)))
        },
        Rule::ArgSpecs | Rule::BindSpecs => {
            let flat = flatten_json_array(values.as_slice());
            Ok(Json::array(flat))
        },
        Rule::NonEmptySetExpr => Ok(set_literal(values)),
        Rule::Join | Rule::LeftJoin | Rule::CallExpr => {
            let ghost all = values.deep_view();
            let mut rest = values;
            let first = rest.remove(0);
            assert(rest.deep_view() =~= all.skip(1));
            let second_key = match rule {
                Rule::CallExpr => "args",
                _ => "bind",
            };
            Ok(
                Json::pair(
                    String::from_str(key_for(rule)),
                    first,
                    String::from_str(second_key),
                    Json::array(rest),
                ),
            )
        },
        _ => Err(Error::UnsupportedConstruct(rule)),
    }
}

/// Takes the value at `at` out of `values`, leaving `null` in its place.
fn take_value(values: &mut Vec<Json>, at: usize) -> (value: Json)
    requires
        at < old(values).len(),
    ensures
        value == old(values)@[at as int],
        final(values)@ == old(values)@.update(at as int, Json::Null),
{
    let mut slot = Json::Null;
    values.set_and_swap(at, &mut slot);
    slot
}

/// The entries that `values` spell out from `start` on, keys and values in
/// turn, each key with `prefix` in front of it; an error where a key is no
/// string.
#[verifier::loop_isolation(false)]
fn pairs_of(rule: Rule, values: Vec<Json>, start: usize, prefix: &str) -> (out: Result<
    Vec<(String, Json)>,
    Error,
>)
    requires
        start <= values.len(),
        (values.len() - start) % 2 == 0,
    ensures
        match out {
            Ok(pairs) => keys_are_text(values.deep_view().skip(start as int))
                && pairs.deep_view() == pair_list(
                values.deep_view().skip(start as int),
                prefix@,
            ),
            Err(error) => !keys_are_text(values.deep_view().skip(start as int)) && error
                == Error::ContractViolation(rule),
        },
{
    let ghost all = values.deep_view().skip(start as int);
    let mut values = values;
    let n = values.len();
    let mut pairs: Vec<(String, Json)> = Vec::new();
    let mut i: usize = start;
    while i < n
        invariant
            start <= i <= n,
            n == values@.len(),
            all.len() == n - start,
            (n - start) % 2 == 0,
            (i - start) % 2 == 0,
            forall|j: int| i <= j < n ==> (#[trigger] values@[j])@ == all[j - start],
            forall|j: int| 0 <= j < i - start && j % 2 == 0 ==> (#[trigger] all[j]) is Str,
            pairs.deep_view() =~= pair_list(all, prefix@).take((i - start) / 2),
        decreases n - i,
    {
        let ghost k = (i - start) / 2;
        assert(values@[i as int]@ == all[i - start]);
        assert(values@[i + 1]@ == all[i + 1 - start]);
        let key = match take_value(&mut values, i) {
            Json::Str(text) => text,
            _ => {
                assert(!(all[i - start] is Str));
                return Err(Error::ContractViolation(rule));
            },
        };
        let value = take_value(&mut values, i + 1);
        let name = join(prefix, key.as_str());
        let ghost before = pairs.deep_view();
        proof {
            assert(i - start == 2 * k);
            assert(all[2 * k] == JsonModel::Str(key@));
            assert(all[2 * k + 1] == value@);
            assert(pair_list(all, prefix@)[k] == (name@, value@));
        }
        pairs.push((name, value));
        assert(pairs.deep_view() =~= before.push((name@, value@)));
        i += 2;
        assert((i - start) / 2 == k + 1);
        assert(pair_list(all, prefix@).take(k + 1) =~= pair_list(all, prefix@).take(k).push(
            (name@, value@),
        ));
    }
    proof {
        let list = pair_list(all, prefix@);
        assert(list.take(list.len() as int) =~= list);
    }
    Ok(pairs)
}

/// The object that holds `pairs`, put into it one after the other.
fn object_of(pairs: Vec<(String, Json)>) -> (value: Json)
    ensures
        value@ == JsonModel::Object(insert_all(Seq::empty(), pairs.deep_view())),
{
    let ghost all = pairs.deep_view();
    let mut entries: Vec<(String, Json)> = Vec::new();
    assert(all.take(0) =~= Seq::empty());
    assert(entries.deep_view() =~= Seq::empty());
    for pair in it: pairs
        invariant
            crate::json::entry_models(it.seq()) =~= all,
            entries.deep_view() == insert_all(Seq::empty(), all.take(it.index() as int)),
    {
        proof {
            assert(all.take(it.index() + 1).drop_last() =~= all.take(it.index() as int));
            assert(all.take(it.index() + 1).last() == (pair.0@, pair.1@));
        }
        let (key, value) = pair;
        insert_entry(&mut entries, key, value);
    }
    proof {
        assert(all.take(all.len() as int) =~= all);
        Json::lemma_object_view(entries);
    }
    Json::Object(entries)
}

/// One object for each of `pairs`, holding that entry alone; with its value
/// unwrapped where `unwrap` is set and the value is a parameter reference.
fn boxes_of(pairs: Vec<(String, Json)>, unwrap: bool) -> (value: Json)
    ensures
        value@ == JsonModel::Array(
            if unwrap {
                boxed_bindings(pairs.deep_view())
            } else {
                boxed(pairs.deep_view())
            },
        ),
{
    let ghost all = pairs.deep_view();
    let ghost wanted = if unwrap {
        boxed_bindings(all)
    } else {
        boxed(all)
    };
    let mut boxes: Vec<Json> = Vec::new();
    for pair in it: pairs
        invariant
            crate::json::entry_models(it.seq()) =~= all,
            wanted == if unwrap {
                boxed_bindings(all)
            } else {
                boxed(all)
            },
            boxes.deep_view() =~= wanted.take(it.index() as int),
    {
        assert(all[it.index() as int] == (pair.0@, pair.1@));
        let ghost before = boxes.deep_view();
        let (key, value) = pair;
        let held = if unwrap {
            extract_xt_param_value(&value)
        } else {
            value
        };
        let item = Json::single(key, held);
        assert(wanted[it.index() as int] == item@);
        boxes.push(item);
        assert(boxes.deep_view() =~= before.push(item@));
        assert(wanted.take(it.index() + 1) =~= wanted.take(it.index() as int).push(item@));
    }
    assert(wanted.take(wanted.len() as int) =~= wanted);
    Json::array(boxes)
}

/// The value of a node whose children are keys and values in turn.
fn build_keyed(rule: Rule, values: Vec<Json>) -> (out: Result<Json, Error>)
    requires
        shape_of(rule) is Pairs ==> values.len() % 2 == 0,
        shape_of(rule) is HeadPairs ==> values.len() % 2 == 1,
        shape_of(rule) is Pairs || shape_of(rule) is HeadPairs,
    ensures
        outcome(out) == keyed_value(rule, values.deep_view()),
{
    let ghost all = values.deep_view();
    proof {
        reveal_strlit("");
        assert(""@ =~= Seq::<char>::empty());
        assert(all.skip(0) =~= all);
    }
    match rule {
        Rule::MapExpr | Rule::NonEmptyMapExpr | Rule::WithTailMap | Rule::WithUnifyMap
        | Rule::ReturnMap => match pairs_of(rule, values, 0, "") {
            Ok(pairs) => Ok(object_of(pairs)),
            Err(error) => Err(error),
        },
        Rule::GroupingMap => match pairs_of(rule, values, 0, "") {
            Ok(pairs) => Ok(boxes_of(pairs, false)),
            Err(error) => Err(error),
        },
        Rule::BindMap => match pairs_of(rule, values, 0, "") {
            Ok(pairs) => Ok(boxes_of(pairs, true)),
            Err(error) => Err(error),
        },
        Rule::NamespacedBindMap => {
            let prefix = match &values[0] {
                Json::Str(namespace) => join(namespace.as_str(), "/"),
                _ => {
                    return Err(Error::ContractViolation(rule));
                },
            };
            match pairs_of(rule, values, 1, prefix.as_str()) {
                Ok(pairs) => Ok(object_of(pairs)),
                Err(error) => Err(error),
            }
        },
        _ => Err(Error::UnsupportedConstruct(rule)),
    }
}

/// The value of a node of `rule` that spans `text`, made from `values`: the
/// values of the children that the rule uses.
fn build(rule: Rule, text: &String, values: Vec<Json>) -> (out: Result<Json, Error>)
    requires
        exists|count: nat|
            children_fit(shape_of(rule), count) && values.len() == children_used(
                shape_of(rule),
                count,
            ),
    ensures
        outcome(out) == value_of(rule, text@, values.deep_view()),
{
    let mut values = values;
    match shape(rule) {
        Shape::Unsupported => Err(Error::UnsupportedConstruct(rule)),
        Shape::Leaf => build_leaf(rule, text),
        Shape::One => {
            let value = take_value(&mut values, 0);
            build_unary(rule, value)
        },
        Shape::Two => {
            let first = take_value(&mut values, 0);
            let second = take_value(&mut values, 1);
            build_binary(rule, first, second)
        },
        Shape::Many | Shape::Head => build_list(rule, values),
        Shape::Pairs | Shape::HeadPairs => build_keyed(rule, values),
    }
}

/// Where the values of some first trees are there and the next tree has no
/// value, the trees together have none, with that tree's error.
pub proof fn lemma_first_error(nodes: Seq<NodeModel>, depth: nat, upto: int)
    requires
        0 < upto <= nodes.len(),
        transform_all(nodes.take(upto), depth) is Err,
    ensures
        transform_all(nodes, depth) == transform_all(nodes.take(upto), depth),
    decreases nodes.len() - upto,
{
    if upto == nodes.len() {
        assert(nodes.take(upto) =~= nodes);
    } else {
        assert(nodes.take(upto + 1).drop_last() =~= nodes.take(upto));
        lemma_first_error(nodes, depth, upto + 1);
    }
}

/// The value of the tree `node`, followed no deeper than `depth` nodes.
#[verifier::loop_isolation(false)]
fn transform_node(node: &Node, depth: usize) -> (out: Result<Json, Error>)
    ensures
        outcome(out) == transform(node@, depth as nat),
    decreases depth,
{
    proof {
        node.lemma_view();
    }
    if depth == 0 {
        return Err(Error::NestingTooDeep);
    }
    let shape = shape(node.rule);
    let count = node.children.len();
    if !fits(shape, count) {
        return match shape {
            Shape::Unsupported => Err(Error::UnsupportedConstruct(node.rule)),
            _ => Err(Error::ContractViolation(node.rule)),
        };
    }
    let wanted = used(shape, count);
    let ghost nodes = node@.children.take(wanted as int);
    let mut values: Vec<Json> = Vec::new();
    let mut i: usize = 0;
    assert(nodes.take(0) =~= Seq::empty());
    assert(values.deep_view() =~= Seq::empty());
    while i < wanted
        invariant
            i <= wanted <= count,
            count == node.children@.len(),
            values.len() == i,
            depth > 0,
            node@.children == node.children.deep_view(),
            nodes == node@.children.take(wanted as int),
            transform_all(nodes.take(i as int), (depth - 1) as nat) == Ok::<
                Seq<JsonModel>,
                Error,
            >(values.deep_view()),
        decreases wanted - i,
    {
        proof {
            assert(nodes.take(i + 1).drop_last() =~= nodes.take(i as int));
            assert(nodes.take(i + 1).last() == node.children@[i as int]@);
        }
        match transform_node(&node.children[i], depth - 1) {
            Ok(value) => {
                values.push(value);
                assert(values.deep_view() =~= transform_all(
                    nodes.take(i + 1),
                    (depth - 1) as nat,
                )->Ok_0);
            },
            Err(error) => {
                proof {
                    lemma_first_error(nodes, (depth - 1) as nat, i + 1);
                }
                return Err(error);
            },
        }
        i += 1;
    }
    assert(nodes.take(wanted as int) =~= nodes);
    assert(children_fit(shape_of(node.rule), count as nat) && values.len() == children_used(
        shape_of(node.rule),
        count as nat,
    ));
    build(node.rule, &node.text, values)
}

/// The JSON value of the tree `node`.
///
/// Fails where the tree holds, among the nodes that the transformation
/// follows, a node of a rule that has no value, a node whose children or
/// text are not what its rule needs, or a chain of nested nodes longer than
/// [`MAX_NESTING_DEPTH`].
pub fn parse_value(node: &Node) -> (out: Result<Json, Error>)
    ensures
        outcome(out) == transform(node@, MAX_NESTING_DEPTH as nat),
        out matches Ok(value) ==> value@.well_formed(),
        well_shaped(node@, MAX_NESTING_DEPTH as nat) ==> out is Ok,
{
    proof {
        lemma_transform_well_formed(node@, MAX_NESTING_DEPTH as nat);
        if well_shaped(node@, MAX_NESTING_DEPTH as nat) {
            lemma_well_shaped_has_value(node@, MAX_NESTING_DEPTH as nat);
        }
    }
    transform_node(node, MAX_NESTING_DEPTH)
}

/// The value of a query from what the grammar made of its text: the value
/// of the first tree, or the syntax error with its place as it came.
pub open spec fn query_value(parsed: Result<Seq<NodeModel>, LineColLocation>) -> Result<
    JsonModel,
    Error,
> {
    match parsed {
        Ok(trees) => if trees.len() > 0 {
            transform(trees[0], MAX_NESTING_DEPTH as nat)
        } else {
            Err(Error::ContractViolation(Rule::Query))
        },
        Err(place) => Err(Error::Syntax(place)),
    }
}

/// What the grammar made of a text, with each tree replaced by its model.
pub open spec fn parsed_model(parsed: Result<Vec<Node>, LineColLocation>) -> Result<
    Seq<NodeModel>,
    LineColLocation,
> {
    match parsed {
        Ok(trees) => Ok(trees.deep_view()),
        Err(place) => Err(place),
    }
}

/// The JSON value of a query, from what the grammar made of its text: the
/// trees that it read at the top, or the place where it gave up.
///
/// A syntax error comes back with its place unchanged. Of the trees the
/// first is transformed, as [`parse_value`] does it; where there is none,
/// the query has no value.
pub fn parse_xtql(parsed: Result<Vec<Node>, LineColLocation>) -> (out: Result<Json, Error>)
    ensures
        outcome(out) == query_value(parsed_model(parsed)),
        out matches Ok(value) ==> value@.well_formed(),
        parsed matches Ok(trees) && trees.len() > 0 && well_shaped(
            trees[0]@,
            MAX_NESTING_DEPTH as nat,
        ) ==> out is Ok,
{
    match parsed {
        Ok(trees) => {
            if trees.len() > 0 {
                parse_value(&trees[0])
            } else {
                Err(Error::ContractViolation(Rule::Query))
            }
        },
        Err(place) => Err(Error::Syntax(place)),
    }
}

} // verus!
