use xtql::helpers::contains_key;
use xtql::{extract_xt_param_value, flatten_json_array, merge_json_objects, Json};

fn text(value: &str) -> Json {
    Json::Str(value.to_string())
}

fn object(entries: Vec<(&str, Json)>) -> Json {
    Json::Object(entries.into_iter().map(|(key, value)| (key.to_string(), value)).collect())
}

#[test]
fn merge_later_value_wins_and_first_place_stays() {
    let left = object(vec![("a", Json::Int(1)), ("b", Json::Int(2))]);
    let right = object(vec![("b", Json::Int(3))]);
    let merged = merge_json_objects(vec![left, right]);
    assert_eq!(merged, object(vec![("a", Json::Int(1)), ("b", Json::Int(3))]));
}

#[test]
fn merge_new_keys_go_to_the_end() {
    let left = object(vec![("z", Json::Int(1))]);
    let right = object(vec![("a", Json::Int(2)), ("z", Json::Int(3)), ("m", Json::Null)]);
    let merged = merge_json_objects(vec![left, right]);
    assert_eq!(
        merged,
        object(vec![("z", Json::Int(3)), ("a", Json::Int(2)), ("m", Json::Null)])
    );
}

#[test]
fn merge_is_idempotent() {
    let parts = vec![
        object(vec![("a", Json::Int(1)), ("b", Json::Int(2))]),
        object(vec![("b", Json::Int(3)), ("c", text("x"))]),
    ];
    let once = merge_json_objects(parts);
    let twice = merge_json_objects(vec![once.clone()]);
    assert_eq!(twice, once);
}

#[test]
fn merge_passes_over_what_is_no_object() {
    let merged = merge_json_objects(vec![
        Json::Int(7),
        object(vec![("a", Json::Int(1))]),
        Json::Array(vec![object(vec![("b", Json::Int(2))])]),
        text("a"),
        Json::Null,
    ]);
    assert_eq!(merged, object(vec![("a", Json::Int(1))]));
}

#[test]
fn merge_of_nothing_is_the_empty_object() {
    assert_eq!(merge_json_objects(vec![]), Json::Object(vec![]));
    assert_eq!(merge_json_objects(vec![Json::Null]), Json::Object(vec![]));
}

#[test]
fn merge_removes_a_key_held_twice_in_one_object() {
    let twice = object(vec![("a", Json::Int(1)), ("b", Json::Int(2)), ("a", Json::Int(3))]);
    let merged = merge_json_objects(vec![twice]);
    assert_eq!(merged, object(vec![("a", Json::Int(3)), ("b", Json::Int(2))]));
}

#[test]
fn flatten_goes_through_every_level() {
    let values = vec![
        Json::Int(1),
        Json::Array(vec![Json::Int(2), Json::Array(vec![Json::Int(3), Json::Int(4)])]),
        Json::Int(5),
    ];
    let flat = flatten_json_array(&values);
    assert_eq!(
        flat,
        vec![Json::Int(1), Json::Int(2), Json::Int(3), Json::Int(4), Json::Int(5)]
    );
}

#[test]
fn flatten_leaves_other_values_alone() {
    let inner = object(vec![("a", Json::Array(vec![Json::Int(1)]))]);
    let values = vec![inner.clone(), text("x"), Json::Null, Json::Bool(true)];
    assert_eq!(flatten_json_array(&values), values);
}

#[test]
fn flatten_drops_empty_arrays() {
    let values = vec![
        Json::Array(vec![]),
        Json::Array(vec![Json::Array(vec![]), Json::Array(vec![Json::Array(vec![])])]),
    ];
    assert_eq!(flatten_json_array(&values), Vec::<Json>::new());
    assert_eq!(flatten_json_array(&[]), Vec::<Json>::new());
}

#[test]
fn flatten_is_idempotent() {
    let values = vec![
        Json::Array(vec![Json::Int(1), Json::Array(vec![text("a")])]),
        Json::Float("2.5".to_string()),
    ];
    let once = flatten_json_array(&values);
    let twice = flatten_json_array(&once);
    assert_eq!(twice, once);
    assert_eq!(once, vec![Json::Int(1), text("a"), Json::Float("2.5".to_string())]);
}

#[test]
fn flatten_handles_deep_nesting() {
    let mut value = Json::Int(9);
    for _ in 0..200 {
        value = Json::Array(vec![value]);
    }
    assert_eq!(flatten_json_array(&[value]), vec![Json::Int(9)]);
}

#[test]
fn extract_unwraps_a_parameter_reference() {
    let inner = object(vec![("xt:param", text("$name"))]);
    let wrapped = object(vec![("name", inner.clone())]);
    assert_eq!(extract_xt_param_value(&wrapped), inner);
}

#[test]
fn extract_unwraps_an_inner_object_with_more_keys() {
    let inner = object(vec![("other", Json::Int(1)), ("xt:param", text("$p"))]);
    let wrapped = object(vec![("p", inner.clone())]);
    assert_eq!(extract_xt_param_value(&wrapped), inner);
}

#[test]
fn extract_leaves_other_values_unchanged() {
    let variable = object(vec![("xt:lvar", text("a"))]);
    assert_eq!(extract_xt_param_value(&variable), variable);
    let nested = object(vec![("a", object(vec![("xt:lvar", text("a"))]))]);
    assert_eq!(extract_xt_param_value(&nested), nested);
    let marker_outside = object(vec![("xt:param", text("$a"))]);
    assert_eq!(extract_xt_param_value(&marker_outside), marker_outside);
    assert_eq!(extract_xt_param_value(&Json::Int(3)), Json::Int(3));
    assert_eq!(extract_xt_param_value(&Json::Object(vec![])), Json::Object(vec![]));
    let array = Json::Array(vec![object(vec![("xt:param", text("$a"))])]);
    assert_eq!(extract_xt_param_value(&array), array);
}

#[test]
fn extract_leaves_an_object_of_two_entries_unchanged() {
    let inner = object(vec![("xt:param", text("$a"))]);
    let two = object(vec![("a", inner), ("b", Json::Int(1))]);
    assert_eq!(extract_xt_param_value(&two), two);
}

#[test]
fn contains_key_finds_exact_keys_only() {
    let entries = vec![
        ("xt:param".to_string(), Json::Null),
        ("b".to_string(), Json::Int(1)),
    ];
    assert!(contains_key(&entries, "xt:param"));
    assert!(contains_key(&entries, "b"));
    assert!(!contains_key(&entries, "xt:para"));
    assert!(!contains_key(&entries, ""));
    assert!(!contains_key(&Vec::new(), "b"));
}
