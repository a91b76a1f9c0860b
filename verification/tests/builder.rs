use value_stream::json::builder::{ListBuilder, ObjectBuilder};
use value_stream::json::{Json, JsonObject};

#[test]
fn test_list_builder() {
    let value = ListBuilder::new().unwrap();
    assert_eq!(value, Json::List(Vec::new()));

    let value = ListBuilder::new().push(1isize).push(2isize).push(3isize).unwrap();
    assert_eq!(
        value,
        Json::List(vec![Json::Integer(1), Json::Integer(2), Json::Integer(3)])
    );

    let value = ListBuilder::new()
        .push_list(|bld| bld.push(1isize).push(2isize).push(3isize))
        .unwrap();
    assert_eq!(
        value,
        Json::List(vec![Json::List(vec![
            Json::Integer(1),
            Json::Integer(2),
            Json::Integer(3)
        ])])
    );

    let value = ListBuilder::new()
        .push_object(|bld| bld.insert("a".to_string(), 1isize).insert("b".to_string(), 2isize))
        .unwrap();

    let mut map = JsonObject::new();
    map.insert("a".to_string(), Json::Integer(1));
    map.insert("b".to_string(), Json::Integer(2));
    assert_eq!(value, Json::List(vec![Json::Object(map)]));
}

#[test]
fn test_object_builder() {
    let value = ObjectBuilder::new().unwrap();
    assert_eq!(value, Json::Object(JsonObject::new()));

    let value = ObjectBuilder::new()
        .insert("a".to_string(), 1isize)
        .insert("b".to_string(), 2isize)
        .unwrap();

    let mut map = JsonObject::new();
    map.insert("a".to_string(), Json::Integer(1));
    map.insert("b".to_string(), Json::Integer(2));
    assert_eq!(value, Json::Object(map));
}
