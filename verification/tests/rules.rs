use xtql::rule::{fits, key_for, shape, used, Shape};
use xtql::{parse_value, Json, Node, Rule};

#[test]
fn every_rule_has_its_shape() {
    assert_eq!(shape(Rule::Query), Shape::Unsupported);
    assert_eq!(shape(Rule::EOI), Shape::Unsupported);
    assert_eq!(shape(Rule::Symbol), Shape::Leaf);
    assert_eq!(shape(Rule::EmptySetExpr), Shape::Leaf);
    assert_eq!(shape(Rule::I64), Shape::Leaf);
    assert_eq!(shape(Rule::Table), Shape::One);
    assert_eq!(shape(Rule::Limit), Shape::One);
    assert_eq!(shape(Rule::ParamExpr), Shape::One);
    assert_eq!(shape(Rule::From), Shape::Two);
    assert_eq!(shape(Rule::Rel), Shape::Two);
    assert_eq!(shape(Rule::TaggedValueExpr), Shape::Two);
    assert_eq!(shape(Rule::SubqueryExpr), Shape::Two);
    assert_eq!(shape(Rule::Pipeline), Shape::Many);
    assert_eq!(shape(Rule::Aggregate), Shape::Many);
    assert_eq!(shape(Rule::NonEmptySetExpr), Shape::Many);
    assert_eq!(shape(Rule::Join), Shape::Head);
    assert_eq!(shape(Rule::LeftJoin), Shape::Head);
    assert_eq!(shape(Rule::CallExpr), Shape::Head);
    assert_eq!(shape(Rule::MapExpr), Shape::Pairs);
    assert_eq!(shape(Rule::BindMap), Shape::Pairs);
    assert_eq!(shape(Rule::GroupingMap), Shape::Pairs);
    assert_eq!(shape(Rule::NamespacedBindMap), Shape::HeadPairs);
}

#[test]
fn shapes_take_their_number_of_children() {
    for count in 0..6usize {
        assert!(!fits(Shape::Unsupported, count));
        assert!(fits(Shape::Leaf, count));
        assert!(fits(Shape::Many, count));
        assert_eq!(fits(Shape::One, count), count >= 1);
        assert_eq!(fits(Shape::Head, count), count >= 1);
        assert_eq!(fits(Shape::Two, count), count >= 2);
        assert_eq!(fits(Shape::Pairs, count), count % 2 == 0);
        assert_eq!(fits(Shape::HeadPairs, count), count % 2 == 1);
        assert_eq!(used(Shape::Unsupported, count), 0);
        assert_eq!(used(Shape::Leaf, count), 0);
        assert_eq!(used(Shape::One, count), 1);
        assert_eq!(used(Shape::Two, count), 2);
        assert_eq!(used(Shape::Many, count), count);
        assert_eq!(used(Shape::Head, count), count);
        assert_eq!(used(Shape::Pairs, count), count);
        assert_eq!(used(Shape::HeadPairs, count), count);
    }
}

#[test]
fn fixed_keys() {
    let cases = [
        (Rule::Unify, "unify"),
        (Rule::WithUnify, "with"),
        (Rule::WithTail, "with"),
        (Rule::Rel, "rel"),
        (Rule::From, "from"),
        (Rule::FromTempFilter, "from"),
        (Rule::Join, "join"),
        (Rule::LeftJoin, "leftJoin"),
        (Rule::OrderBy, "orderBy"),
        (Rule::OrderBySpecMapVal, "val"),
        (Rule::OrderBySpecMapDir, "dir"),
        (Rule::OrderBySpecMapNulls, "nulls"),
        (Rule::Aggregate, "aggregate"),
        (Rule::GroupingVar, "xt:lvar"),
        (Rule::VariableExpr, "xt:lvar"),
        (Rule::Return, "return"),
        (Rule::Where, "where"),
        (Rule::Without, "without"),
        (Rule::Limit, "limit"),
        (Rule::Offset, "offset"),
        (Rule::UnnestTail, "unnest"),
        (Rule::UnnestUnify, "unnest"),
        (Rule::AtTempFilter, "at"),
        (Rule::ToTempFilter, "to"),
        (Rule::InTempFilter, "in"),
        (Rule::ValidTimeKV, "forValidTime"),
        (Rule::SystemTimeKV, "forSystemTime"),
        (Rule::BindKV, "bind"),
        (Rule::Args, "args"),
        (Rule::CallExpr, "xt:call"),
        (Rule::PullExpr, "xt:pull"),
        (Rule::PullManyExpr, "xt:pullMany"),
        (Rule::ExistsExpr, "xt:exists"),
        (Rule::SubqueryExpr, "xt:q"),
        (Rule::Pipeline, ""),
        (Rule::Symbol, ""),
        (Rule::Query, ""),
    ];
    for (rule, key) in cases {
        assert_eq!(key_for(rule), key);
    }
}

#[test]
fn nodes_hold_what_they_are_made_of() {
    let kid = Node::leaf(Rule::Symbol, "a");
    assert_eq!(kid.rule, Rule::Symbol);
    assert_eq!(kid.text, "a");
    assert!(kid.children.is_empty());
    let parent = Node::new(Rule::Table, ":a", vec![kid.clone()]);
    assert_eq!(parent.rule, Rule::Table);
    assert_eq!(parent.text, ":a");
    assert_eq!(parent.children, vec![kid]);
    assert_eq!(parent.clone(), parent);
}

#[test]
fn trees_of_the_right_shape_have_a_value() {
    let name = |text: &str| Node::leaf(Rule::Symbol, text);
    let trees = vec![
        Node::new(Rule::BindVar, "", vec![name("a")]),
        Node::new(Rule::ParamExpr, "", vec![Node::new(Rule::LogicVar, "", vec![name("p")])]),
        Node::new(
            Rule::MapExpr,
            "",
            vec![
                Node::new(Rule::MapKey, "", vec![Node::leaf(Rule::Keyword, ":k")]),
                Node::leaf(Rule::F64, "1.5"),
            ],
        ),
        Node::new(
            Rule::NamespacedBindMap,
            "",
            vec![Node::new(Rule::Namespace, "", vec![name("ns")]), name("a"), Node::leaf(Rule::Bool, "true")],
        ),
        Node::new(Rule::Limit, "", vec![Node::leaf(Rule::NonNegativeInteger, "3")]),
    ];
    for tree in &trees {
        assert!(parse_value(tree).is_ok());
    }
    assert_eq!(
        parse_value(&trees[2]),
        Ok(Json::Object(vec![("k".to_string(), Json::Float("1.5".to_string()))]))
    );
}
