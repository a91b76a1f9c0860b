use value_stream::assoc::find_slot;
use value_stream::char_map::{CharMap, Letter};
use value_stream::error::{bare_syntax_error, syntax_error, Error};
use value_stream::json::builder::{ListBuilder, ObjectBuilder};
use value_stream::json::{Json, JsonObject, ToJson};
use value_stream::text::{compare_text, same_text, TextOrder};
use value_stream::token::{describe_found, describe_mismatch, Token, TokenKind};

#[test]
fn text_compares_by_code_point() {
    assert_eq!(compare_text("", ""), TextOrder::Same);
    assert_eq!(compare_text("", "a"), TextOrder::Before);
    assert_eq!(compare_text("a", ""), TextOrder::After);
    assert_eq!(compare_text("abc", "abc"), TextOrder::Same);
    assert_eq!(compare_text("abc", "abd"), TextOrder::Before);
    assert_eq!(compare_text("abd", "abc"), TextOrder::After);
    assert_eq!(compare_text("ab", "abc"), TextOrder::Before);
    assert_eq!(compare_text("abc", "ab"), TextOrder::After);
    assert_eq!(compare_text("B", "a"), TextOrder::Before);
    assert_eq!(compare_text("z", "é"), TextOrder::Before);
    assert_eq!(compare_text("é", "z"), TextOrder::After);
    assert_eq!(compare_text("\u{ffff}", "\u{10000}"), TextOrder::Before);
}

#[test]
fn text_order_agrees_with_the_order_of_strings() {
    let samples = ["", "a", "ab", "b", "B", "é", "\u{ffff}", "\u{10000}", "aé", "a\u{10000}"];
    for left in samples {
        for right in samples {
            let expected = if left < right {
                TextOrder::Before
            } else if left == right {
                TextOrder::Same
            } else {
                TextOrder::After
            };
            assert_eq!(compare_text(left, right), expected);
            assert_eq!(same_text(left, right), left == right);
        }
    }
}

#[test]
fn slot_is_where_a_key_stands_or_belongs() {
    let entries = vec![("b".to_string(), 1), ("d".to_string(), 2), ("f".to_string(), 3)];
    assert_eq!(find_slot(&entries, "a"), (0, false));
    assert_eq!(find_slot(&entries, "b"), (0, true));
    assert_eq!(find_slot(&entries, "c"), (1, false));
    assert_eq!(find_slot(&entries, "d"), (1, true));
    assert_eq!(find_slot(&entries, "f"), (2, true));
    assert_eq!(find_slot(&entries, "g"), (3, false));
    let none: Vec<(String, u8)> = vec![];
    assert_eq!(find_slot(&none, "a"), (0, false));
}

#[test]
fn token_kinds_and_names() {
    assert_eq!(Token::Null.kind(), TokenKind::NullKind);
    assert_eq!(Token::Bool(true).kind(), TokenKind::BoolKind);
    assert_eq!(Token::Int(1).kind(), TokenKind::IntKind);
    assert_eq!(Token::I8(1).kind(), TokenKind::I8Kind);
    assert_eq!(Token::I16(1).kind(), TokenKind::I16Kind);
    assert_eq!(Token::I32(1).kind(), TokenKind::I32Kind);
    assert_eq!(Token::I64(1).kind(), TokenKind::I64Kind);
    assert_eq!(Token::Uint(1).kind(), TokenKind::UintKind);
    assert_eq!(Token::U8(1).kind(), TokenKind::U8Kind);
    assert_eq!(Token::U16(1).kind(), TokenKind::U16Kind);
    assert_eq!(Token::U32(1).kind(), TokenKind::U32Kind);
    assert_eq!(Token::U64(1).kind(), TokenKind::U64Kind);
    assert_eq!(Token::F32(1.5f32.to_bits()).kind(), TokenKind::F32Kind);
    assert_eq!(Token::F64(1.5f64.to_bits()).kind(), TokenKind::F64Kind);
    assert_eq!(Token::Char('c').kind(), TokenKind::CharKind);
    assert_eq!(Token::Str("s").kind(), TokenKind::StrKind);
    assert_eq!(Token::String("s".to_string()).kind(), TokenKind::StringKind);
    assert_eq!(Token::Option(true).kind(), TokenKind::OptionKind);
    assert_eq!(Token::TupleStart(1).kind(), TokenKind::TupleStartKind);
    assert_eq!(Token::StructStart("s", 1).kind(), TokenKind::StructStartKind);
    assert_eq!(Token::EnumStart("e", "v", 1).kind(), TokenKind::EnumStartKind);
    assert_eq!(Token::SeqStart(1).kind(), TokenKind::SeqStartKind);
    assert_eq!(Token::MapStart(1).kind(), TokenKind::MapStartKind);
    assert_eq!(Token::End.kind(), TokenKind::EndKind);
    assert_eq!(TokenKind::NullKind.name(), "Null");
    assert_eq!(TokenKind::F64Kind.name(), "F64");
    assert_eq!(TokenKind::TupleStartKind.name(), "TupleStart");
    assert_eq!(TokenKind::EnumStartKind.name(), "EnumStart");
    assert_eq!(TokenKind::EndKind.name(), "End");
}

#[test]
fn mismatch_is_written_out() {
    assert_eq!(describe_found(TokenKind::BoolKind), "found Bool");
    assert_eq!(describe_mismatch(&[], TokenKind::EndKind), "expected , found End");
    assert_eq!(
        describe_mismatch(&[TokenKind::MapStartKind], TokenKind::SeqStartKind),
        "expected MapStart, found SeqStart"
    );
    assert_eq!(
        describe_mismatch(
            &[TokenKind::StrKind, TokenKind::StringKind, TokenKind::CharKind],
            TokenKind::U16Kind
        ),
        "expected Str, String, Char, found U16"
    );
}

#[test]
fn syntax_errors_carry_their_text() {
    assert_eq!(syntax_error("expected Outer"), Error::SyntaxError("expected Outer".to_string()));
    assert_eq!(bare_syntax_error(), Error::SyntaxError(String::new()));
    assert_ne!(syntax_error("a"), Error::UnexpectedName("a".to_string()));
}

#[test]
fn object_keeps_its_keys_in_order() {
    let mut forward = JsonObject::new();
    forward.insert("a".to_string(), Json::Integer(1));
    forward.insert("b".to_string(), Json::Integer(2));
    forward.insert("c".to_string(), Json::Integer(3));
    let mut backward = JsonObject::new();
    backward.insert("c".to_string(), Json::Integer(3));
    backward.insert("a".to_string(), Json::Integer(1));
    backward.insert("b".to_string(), Json::Integer(2));
    assert_eq!(forward, backward);
    assert_eq!(forward.len(), 3);
    assert_eq!(
        backward.into_entries(),
        vec![
            ("a".to_string(), Json::Integer(1)),
            ("b".to_string(), Json::Integer(2)),
            ("c".to_string(), Json::Integer(3)),
        ]
    );
}

#[test]
fn object_insert_hands_back_what_it_replaces() {
    let mut object = JsonObject::new();
    assert_eq!(object.len(), 0);
    assert_eq!(object.insert("k".to_string(), Json::Bool(true)), None);
    assert_eq!(object.insert("k".to_string(), Json::Null), Some(Json::Bool(true)));
    assert_eq!(object.insert("j".to_string(), Json::Integer(4)), None);
    assert_eq!(object.len(), 2);
    assert_eq!(object.get("k"), Some(&Json::Null));
    assert_eq!(object.get("j"), Some(&Json::Integer(4)));
    assert_eq!(object.get("i"), None);
    assert_eq!(object.get("l"), None);
}

#[test]
fn duplicate_gives_an_equal_tree() {
    let tree = ListBuilder::new()
        .push(1i64)
        .push("text".to_string())
        .push_object(|b| b.insert("x".to_string(), true).insert_list("l", |l| l.push(())))
        .unwrap();
    assert_eq!(tree.duplicate(), tree);
    assert_eq!(tree.clone(), tree);
    assert_eq!(tree.to_json(), tree);
    let object = match ObjectBuilder::new().insert("a".to_string(), tree.duplicate()).unwrap() {
        Json::Object(object) => object,
        _ => unreachable!(),
    };
    assert_eq!(object.duplicate(), object);
    assert_eq!(object.clone(), object);
}

#[test]
fn values_turn_into_trees() {
    assert_eq!(().to_json(), Json::Null);
    assert_eq!(true.to_json(), Json::Bool(true));
    assert_eq!((-1i8).to_json(), Json::Integer(-1));
    assert_eq!((-2i16).to_json(), Json::Integer(-2));
    assert_eq!((-3i32).to_json(), Json::Integer(-3));
    assert_eq!(i64::MIN.to_json(), Json::Integer(i64::MIN));
    assert_eq!((-5isize).to_json(), Json::Integer(-5));
    assert_eq!(255u8.to_json(), Json::Integer(255));
    assert_eq!(65535u16.to_json(), Json::Integer(65535));
    assert_eq!(u32::MAX.to_json(), Json::Integer(4294967295));
    assert_eq!("s".to_string().to_json(), Json::String("s".to_string()));
    assert_eq!("t".to_json(), Json::String("t".to_string()));
    assert_eq!(Some(3i64).to_json(), Json::Integer(3));
    assert_eq!(None::<i64>.to_json(), Json::Null);
    assert_eq!(
        vec![1i64, 2].to_json(),
        Json::List(vec![Json::Integer(1), Json::Integer(2)])
    );
    assert_eq!(Json::Float(1.5f64.to_bits()).to_json(), Json::Float(0x3ff8_0000_0000_0000));
}

#[test]
fn builders_nest() {
    let value = ObjectBuilder::new()
        .insert_list("list", |l| l.push(1i64).push_list(|m| m.push(false)))
        .insert_object("object", |o| o.insert("k".to_string(), ()))
        .insert("a".to_string(), 5u8)
        .insert("a".to_string(), 6u8)
        .unwrap();
    let mut inner = JsonObject::new();
    inner.insert("k".to_string(), Json::Null);
    let mut expected = JsonObject::new();
    expected.insert("a".to_string(), Json::Integer(6));
    expected.insert(
        "list".to_string(),
        Json::List(vec![Json::Integer(1), Json::List(vec![Json::Bool(false)])]),
    );
    expected.insert("object".to_string(), Json::Object(inner));
    assert_eq!(value, Json::Object(expected));
}

#[test]
fn letters_stand_for_optional_characters() {
    assert_eq!(Letter::from_option(Some('x')), Letter::Present('x'));
    assert_eq!(Letter::from_option(None), Letter::Absent);
    assert_eq!(Letter::Present('y').to_option(), Some('y'));
    assert_eq!(Letter::Absent.to_option(), None);
}

#[test]
fn char_map_lists_by_key() {
    let mut map = CharMap::new();
    assert_eq!(map.len(), 0);
    assert_eq!(map.insert("m".to_string(), Some('1')), None);
    assert_eq!(map.insert("a".to_string(), None), None);
    assert_eq!(map.insert("z".to_string(), Some('3')), None);
    assert_eq!(map.insert("m".to_string(), None), Some(Some('1')));
    assert_eq!(map.insert("a".to_string(), Some('0')), Some(None));
    assert_eq!(map.len(), 3);
    assert_eq!(map.get("a"), Some(Some('0')));
    assert_eq!(map.get("m"), Some(None));
    assert_eq!(map.get("z"), Some(Some('3')));
    assert_eq!(map.get("b"), None);
    let copy = map.clone();
    assert_eq!(copy, map);
    assert_eq!(
        map.into_entries(),
        vec![
            ("a".to_string(), Letter::Present('0')),
            ("m".to_string(), Letter::Absent),
            ("z".to_string(), Letter::Present('3')),
        ]
    );
}

#[test]
fn char_maps_with_the_same_entries_are_equal() {
    let mut forward = CharMap::new();
    forward.insert("1".to_string(), Some('a'));
    forward.insert("2".to_string(), None);
    let mut backward = CharMap::new();
    backward.insert("2".to_string(), None);
    backward.insert("1".to_string(), Some('a'));
    assert_eq!(forward, backward);
    backward.insert("2".to_string(), Some('b'));
    assert_ne!(forward, backward);
}
