use xtql::entries::insert_entry;
use xtql::{Json, XtqlQuery};

fn word(value: &str) -> Json {
    Json::Str(value.to_string())
}

#[test]
fn clone_copies_every_level() {
    let value = Json::Object(vec![
        ("a".to_string(), Json::Array(vec![Json::Int(-1), Json::Float("1.5".to_string())])),
        ("b".to_string(), Json::Object(vec![("c".to_string(), Json::Bool(false))])),
        ("d".to_string(), Json::Null),
        ("e".to_string(), word("text")),
    ]);
    assert_eq!(value.clone(), value);
}

#[test]
fn single_and_pair_keep_their_order() {
    assert_eq!(
        Json::single("k".to_string(), Json::Int(1)),
        Json::Object(vec![("k".to_string(), Json::Int(1))])
    );
    assert_eq!(
        Json::pair("z".to_string(), Json::Int(1), "a".to_string(), Json::Int(2)),
        Json::Object(vec![("z".to_string(), Json::Int(1)), ("a".to_string(), Json::Int(2))])
    );
    assert_eq!(Json::string("abc"), word("abc"));
    assert_eq!(Json::array(vec![Json::Null]), Json::Array(vec![Json::Null]));
}

#[test]
fn as_str_gives_the_text_of_strings_only() {
    assert_eq!(word("abc").as_str(), Some("abc"));
    assert_eq!(word("").as_str(), Some(""));
    assert_eq!(Json::Float("1.0".to_string()).as_str(), None);
    assert_eq!(Json::Int(1).as_str(), None);
    assert_eq!(Json::Null.as_str(), None);
}

#[test]
fn get_finds_the_first_entry_of_a_key() {
    let value = Json::Object(vec![
        ("a".to_string(), Json::Int(1)),
        ("b".to_string(), Json::Int(2)),
        ("a".to_string(), Json::Int(3)),
    ]);
    assert_eq!(value.get("a"), Some(&Json::Int(1)));
    assert_eq!(value.get("b"), Some(&Json::Int(2)));
    assert_eq!(value.get("c"), None);
    assert_eq!(Json::Array(vec![Json::Int(1)]).get("a"), None);
    assert_eq!(Json::Null.get(""), None);
}

#[test]
fn insert_entry_replaces_in_place_or_appends() {
    let mut entries = vec![("a".to_string(), Json::Int(1)), ("b".to_string(), Json::Int(2))];
    insert_entry(&mut entries, "a".to_string(), Json::Int(9));
    assert_eq!(
        entries,
        vec![("a".to_string(), Json::Int(9)), ("b".to_string(), Json::Int(2))]
    );
    insert_entry(&mut entries, "c".to_string(), Json::Null);
    assert_eq!(
        entries,
        vec![
            ("a".to_string(), Json::Int(9)),
            ("b".to_string(), Json::Int(2)),
            ("c".to_string(), Json::Null)
        ]
    );
    let mut empty: Vec<(String, Json)> = Vec::new();
    insert_entry(&mut empty, "".to_string(), Json::Bool(true));
    assert_eq!(empty, vec![("".to_string(), Json::Bool(true))]);
}

#[test]
fn request_body_has_query_then_options() {
    let query = XtqlQuery {
        query: Json::Array(vec![Json::single("from".to_string(), word("docs"))]),
        options: Json::Object(vec![]),
    };
    let copy = query.clone();
    assert_eq!(copy, query);
    let body = query.request_body();
    assert_eq!(
        body,
        Json::Object(vec![
            (
                "query".to_string(),
                Json::Array(vec![Json::Object(vec![("from".to_string(), word("docs"))])])
            ),
            ("queryOpts".to_string(), Json::Object(vec![])),
        ])
    );
}
