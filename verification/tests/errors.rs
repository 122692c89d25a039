use xtql::{parse_xtql, Error, Json, LineColLocation, Node, Rule};

#[test]
fn syntax_error_keeps_its_place() {
    let place = LineColLocation::Pos((3, 14));
    assert_eq!(parse_xtql(Err(place)), Err(Error::Syntax(place)));
    let stretch = LineColLocation::Span((1, 2), (4, 1));
    assert_eq!(parse_xtql(Err(stretch)), Err(Error::Syntax(stretch)));
}

#[test]
fn syntax_error_message_names_the_place() {
    let at = Error::Syntax(LineColLocation::Pos((1, 5)));
    assert_eq!(at.message(), "Parse Error: at 1:5");
    let stretch = Error::Syntax(LineColLocation::Span((12, 7), (13, 120)));
    assert_eq!(stretch.message(), "Parse Error: at 12:7 to 13:120");
    let origin = Error::Syntax(LineColLocation::Pos((0, 0)));
    assert_eq!(origin.message(), "Parse Error: at 0:0");
}

#[test]
fn other_messages_are_fixed() {
    assert_eq!(Error::UnsupportedConstruct(Rule::Query).message(), "Unsupported construct");
    assert_eq!(Error::ContractViolation(Rule::From).message(), "Contract violation");
    assert_eq!(Error::NestingTooDeep.message(), "Nesting too deep");
}

#[test]
fn query_takes_the_first_tree() {
    let trees = vec![Node::leaf(Rule::Symbol, "docs"), Node::leaf(Rule::EOI, "")];
    assert_eq!(parse_xtql(Ok(trees)), Ok(Json::Str("docs".to_string())));
}

#[test]
fn query_without_a_tree_has_no_value() {
    assert_eq!(parse_xtql(Ok(vec![])), Err(Error::ContractViolation(Rule::Query)));
}

#[test]
fn query_with_an_end_marker_first_is_unsupported() {
    let trees = vec![Node::leaf(Rule::EOI, "")];
    assert_eq!(parse_xtql(Ok(trees)), Err(Error::UnsupportedConstruct(Rule::EOI)));
}
