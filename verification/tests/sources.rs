use value_stream::animal::Animal;
use value_stream::char_map::CharMap;
use value_stream::de::{
    deserialize_char, deserialize_int, deserialize_option_char, deserialize_string,
    deserialize_uint, deserialize_unit, expect_end, expect_token, string_from_token, Deserializer,
};
use value_stream::error::Error;
use value_stream::outer::rebuild::{deserialize_inners, deserialize_map};
use value_stream::outer::{Inner, Outer, OuterAdapter};
use value_stream::replay::Replay;
use value_stream::token::Token;

fn syntax(text: &str) -> Error {
    Error::SyntaxError(text.to_string())
}

#[test]
fn replay_hands_out_what_it_was_given() {
    let mut d = Replay::new(vec![Token::Uint(1), Token::End, Token::Null]);
    assert_eq!(d.next(), Some(Ok(Token::Uint(1))));
    assert_eq!(d.next(), Some(Ok(Token::End)));
    assert_eq!(d.next(), Some(Ok(Token::Null)));
    assert_eq!(d.next(), None);
    assert_eq!(d.next(), None);
    assert_eq!(Replay::new(vec![]).next(), None);
}

#[test]
fn tokens_of_an_adapter_replay_to_the_same_value() {
    let mut c = CharMap::new();
    c.insert("k".to_string(), Some('v'));
    c.insert("j".to_string(), None);
    let outer = || Outer { inner: vec![Inner { a: (), b: 3, c: c.clone() }, nine()] };
    let mut adapter = OuterAdapter::new(outer());
    let mut tokens = Vec::new();
    while let Some(token) = adapter.next() {
        tokens.push(token.unwrap());
    }
    assert_eq!(Outer::deserialize(&mut Replay::new(tokens)), Ok(outer()));
}

#[test]
fn expect_token_takes_tokens_in_order() {
    let mut d = Replay::new(vec![Token::Null, Token::Bool(true)]);
    assert_eq!(expect_token(&mut d), Ok(Token::Null));
    assert_eq!(expect_token(&mut d), Ok(Token::Bool(true)));
    assert_eq!(expect_token(&mut d), Err(Error::EndOfStream));
    assert_eq!(expect_token(&mut d), Err(Error::EndOfStream));
}

#[test]
fn expect_end_wants_an_end() {
    let mut d = Replay::new(vec![Token::End, Token::Null]);
    assert_eq!(expect_end(&mut d), Ok(()));
    assert_eq!(expect_end(&mut d), Err(syntax("expected End, found Null")));
    assert_eq!(expect_end(&mut d), Err(Error::EndOfStream));
}

#[test]
fn scalars_come_from_their_tokens() {
    let mut d = Replay::new(vec![
        Token::Null,
        Token::Char('x'),
        Token::String("owned".to_string()),
        Token::Str("lent"),
    ]);
    assert_eq!(deserialize_unit(&mut d), Ok(()));
    assert_eq!(deserialize_char(&mut d), Ok('x'));
    assert_eq!(deserialize_string(&mut d), Ok("owned".to_string()));
    assert_eq!(deserialize_string(&mut d), Ok("lent".to_string()));
}

#[test]
fn scalars_refuse_other_tokens() {
    let mut d = Replay::new(vec![Token::End, Token::Null, Token::Char('c'), Token::Bool(true)]);
    assert_eq!(deserialize_unit(&mut d), Err(syntax("expected Null, found End")));
    assert_eq!(deserialize_char(&mut d), Err(syntax("expected Char, found Null")));
    assert_eq!(
        deserialize_string(&mut d),
        Err(syntax("expected Str, String, found Char"))
    );
    assert_eq!(
        deserialize_int(&mut d),
        Err(syntax(
            "expected Int, I8, I16, I32, I64, Uint, U8, U16, U32, U64, found Bool"
        ))
    );
    assert_eq!(deserialize_uint(&mut d), Err(Error::EndOfStream));
}

#[test]
fn signed_numbers_come_from_any_integer_token() {
    let mut d = Replay::new(vec![
        Token::Int(-3),
        Token::I8(-4),
        Token::I16(-5),
        Token::I32(-6),
        Token::I64(-7),
        Token::Uint(8),
        Token::U8(9),
        Token::U16(10),
        Token::U32(11),
        Token::U64(12),
    ]);
    for expected in [-3isize, -4, -5, -6, -7, 8, 9, 10, 11, 12] {
        assert_eq!(deserialize_int(&mut d), Ok(expected));
    }
}

#[test]
fn unsigned_numbers_come_from_any_integer_token() {
    let mut d = Replay::new(vec![
        Token::Int(3),
        Token::I8(4),
        Token::I16(5),
        Token::I32(6),
        Token::I64(7),
        Token::Uint(8),
        Token::U8(9),
        Token::U16(10),
        Token::U32(11),
        Token::U64(12),
    ]);
    for expected in [3usize, 4, 5, 6, 7, 8, 9, 10, 11, 12] {
        assert_eq!(deserialize_uint(&mut d), Ok(expected));
    }
}

#[test]
fn numbers_that_do_not_fit_are_conversion_errors() {
    let mut d = Replay::new(vec![
        Token::Int(-1),
        Token::I8(-1),
        Token::I64(i64::MIN),
        Token::U64(u64::MAX),
        Token::Uint(usize::MAX),
    ]);
    assert_eq!(
        deserialize_uint(&mut d),
        Err(Error::ConversionError("found Int".to_string()))
    );
    assert_eq!(
        deserialize_uint(&mut d),
        Err(Error::ConversionError("found I8".to_string()))
    );
    assert_eq!(
        deserialize_uint(&mut d),
        Err(Error::ConversionError("found I64".to_string()))
    );
    assert_eq!(
        deserialize_int(&mut d),
        Err(Error::ConversionError("found U64".to_string()))
    );
    assert_eq!(
        deserialize_int(&mut d),
        Err(Error::ConversionError("found Uint".to_string()))
    );
}

#[test]
fn bounds_of_the_number_types_fit() {
    let mut d = Replay::new(vec![
        Token::Int(isize::MIN),
        Token::Int(isize::MAX),
        Token::Uint(usize::MAX),
        Token::Uint(isize::MAX as usize),
        Token::I64(0),
    ]);
    assert_eq!(deserialize_int(&mut d), Ok(isize::MIN));
    assert_eq!(deserialize_int(&mut d), Ok(isize::MAX));
    assert_eq!(deserialize_uint(&mut d), Ok(usize::MAX));
    assert_eq!(deserialize_int(&mut d), Ok(isize::MAX));
    assert_eq!(deserialize_uint(&mut d), Ok(0));
}

#[test]
fn optional_characters_follow_their_mark() {
    let mut d = Replay::new(vec![
        Token::Option(false),
        Token::Option(true),
        Token::Char('k'),
        Token::Option(true),
        Token::Null,
        Token::Null,
        Token::Option(true),
    ]);
    assert_eq!(deserialize_option_char(&mut d), Ok(None));
    assert_eq!(deserialize_option_char(&mut d), Ok(Some('k')));
    assert_eq!(
        deserialize_option_char(&mut d),
        Err(syntax("expected Char, found Null"))
    );
    assert_eq!(
        deserialize_option_char(&mut d),
        Err(syntax("expected Option, found Null"))
    );
    assert_eq!(deserialize_option_char(&mut d), Err(Error::EndOfStream));
    assert_eq!(deserialize_option_char(&mut d), Err(Error::EndOfStream));
}

#[test]
fn text_comes_out_of_a_token_already_read() {
    let mut d = Replay::new(vec![Token::Null]);
    assert_eq!(
        string_from_token(&mut d, Token::String("a".to_string())),
        Ok("a".to_string())
    );
    assert_eq!(string_from_token(&mut d, Token::Str("b")), Ok("b".to_string()));
    assert_eq!(
        string_from_token(&mut d, Token::End),
        Err(syntax("expected Str, String, found End"))
    );
    assert_eq!(expect_token(&mut d), Ok(Token::Null));
}

#[test]
fn mapping_is_read_up_to_its_end() {
    let mut d = Replay::new(vec![
        Token::MapStart(2),
        Token::String("b".to_string()),
        Token::Option(true),
        Token::Char('x'),
        Token::String("a".to_string()),
        Token::Option(false),
        Token::End,
        Token::Null,
    ]);
    let map = deserialize_map(&mut d).unwrap();
    assert_eq!(map.len(), 2);
    assert_eq!(map.get("a"), Some(None));
    assert_eq!(map.get("b"), Some(Some('x')));
    assert_eq!(expect_token(&mut d), Ok(Token::Null));
}

#[test]
fn mapping_does_not_rely_on_the_number_it_is_given() {
    let mut d = Replay::new(vec![
        Token::MapStart(40),
        Token::String("a".to_string()),
        Token::Option(false),
        Token::End,
    ]);
    let map = deserialize_map(&mut d).unwrap();
    assert_eq!(map.len(), 1);
}

#[test]
fn later_entry_takes_the_place_of_an_earlier_one() {
    let mut d = Replay::new(vec![
        Token::MapStart(2),
        Token::String("a".to_string()),
        Token::Option(false),
        Token::Str("a"),
        Token::Option(true),
        Token::Char('z'),
        Token::End,
    ]);
    let map = deserialize_map(&mut d).unwrap();
    assert_eq!(map.len(), 1);
    assert_eq!(map.get("a"), Some(Some('z')));
}

#[test]
fn broken_mappings_are_refused() {
    let mut d = Replay::new(vec![Token::SeqStart(0)]);
    assert_eq!(
        deserialize_map(&mut d),
        Err(syntax("expected MapStart, found SeqStart"))
    );
    let mut d = Replay::new(vec![]);
    assert_eq!(deserialize_map(&mut d), Err(Error::EndOfStream));
    let mut d = Replay::new(vec![Token::MapStart(1), Token::String("a".to_string())]);
    assert_eq!(deserialize_map(&mut d), Err(Error::EndOfStream));
    let mut d = Replay::new(vec![Token::MapStart(1), Token::Uint(1)]);
    assert_eq!(
        deserialize_map(&mut d),
        Err(syntax("expected Str, String, found Uint"))
    );
}

fn inner_tokens_in(order: [&'static str; 3]) -> Vec<Token> {
    let mut tokens = vec![Token::StructStart("Inner", 3)];
    for name in order {
        tokens.push(Token::Str(name));
        match name {
            "a" => tokens.push(Token::Null),
            "b" => tokens.push(Token::U8(9)),
            _ => {
                tokens.push(Token::MapStart(1));
                tokens.push(Token::String("k".to_string()));
                tokens.push(Token::Option(true));
                tokens.push(Token::Char('v'));
                tokens.push(Token::End);
            }
        }
    }
    tokens.push(Token::End);
    tokens
}

fn nine() -> Inner {
    let mut c = CharMap::new();
    c.insert("k".to_string(), Some('v'));
    Inner { a: (), b: 9, c }
}

#[test]
fn fields_may_come_in_any_order() {
    for order in [
        ["a", "b", "c"],
        ["a", "c", "b"],
        ["b", "a", "c"],
        ["b", "c", "a"],
        ["c", "a", "b"],
        ["c", "b", "a"],
    ] {
        let mut d = Replay::new(inner_tokens_in(order));
        assert_eq!(Inner::deserialize(&mut d), Ok(nine()));
        assert_eq!(expect_token(&mut d), Err(Error::EndOfStream));
    }
}

#[test]
fn field_that_never_comes_is_missing() {
    let mut d = Replay::new(vec![
        Token::StructStart("Inner", 3),
        Token::Str("a"),
        Token::Null,
        Token::End,
    ]);
    assert_eq!(Inner::deserialize(&mut d), Err(Error::MissingField("b")));
    let mut d = Replay::new(vec![Token::StructStart("Inner", 3), Token::End]);
    assert_eq!(Inner::deserialize(&mut d), Err(Error::MissingField("a")));
    let mut d = Replay::new(vec![
        Token::StructStart("Inner", 3),
        Token::Str("b"),
        Token::Uint(1),
        Token::Str("a"),
        Token::Null,
        Token::End,
    ]);
    assert_eq!(Inner::deserialize(&mut d), Err(Error::MissingField("c")));
    let mut d = Replay::new(vec![Token::StructStart("Outer", 1), Token::End]);
    assert_eq!(Outer::deserialize(&mut d), Err(Error::MissingField("inner")));
}

#[test]
fn field_nobody_knows_is_an_unexpected_name() {
    let mut d = Replay::new(vec![Token::StructStart("Inner", 3), Token::Str("d")]);
    assert_eq!(
        Inner::deserialize(&mut d),
        Err(Error::UnexpectedName("found Str".to_string()))
    );
    let mut d = Replay::new(vec![Token::StructStart("Outer", 1), Token::Str("a")]);
    assert_eq!(
        Outer::deserialize(&mut d),
        Err(Error::UnexpectedName("found Str".to_string()))
    );
}

#[test]
fn token_where_a_field_is_due_is_a_syntax_error() {
    let mut d = Replay::new(vec![Token::StructStart("Inner", 3), Token::Uint(1)]);
    assert_eq!(
        Inner::deserialize(&mut d),
        Err(syntax("expected End, Str, found Uint"))
    );
}

#[test]
fn struct_cut_short_is_an_end_of_stream() {
    let mut d = Replay::new(vec![Token::StructStart("Inner", 3), Token::Str("a"), Token::Null]);
    assert_eq!(Inner::deserialize(&mut d), Err(Error::EndOfStream));
    let mut d = Replay::new(vec![
        Token::StructStart("Outer", 1),
        Token::Str("inner"),
        Token::SeqStart(1),
    ]);
    assert_eq!(Outer::deserialize(&mut d), Err(Error::EndOfStream));
}

#[test]
fn inner_struct_comes_from_a_token_already_read() {
    let mut tokens = inner_tokens_in(["a", "b", "c"]);
    let first = tokens.remove(0);
    let mut d = Replay::new(tokens);
    assert_eq!(Inner::deserialize_token(&mut d, first), Ok(nine()));
    let mut d = Replay::new(vec![]);
    assert_eq!(
        Inner::deserialize_token(&mut d, Token::Null),
        Err(syntax("expected StructStart, found Null"))
    );
    assert_eq!(
        Inner::deserialize_token(&mut d, Token::StructStart("Outer", 1)),
        Err(Error::UnexpectedName("found StructStart".to_string()))
    );
}

#[test]
fn sequence_is_read_up_to_its_end() {
    let mut tokens = vec![Token::SeqStart(2)];
    tokens.extend(inner_tokens_in(["a", "b", "c"]));
    tokens.extend(inner_tokens_in(["c", "b", "a"]));
    tokens.push(Token::End);
    tokens.push(Token::Bool(false));
    let mut d = Replay::new(tokens);
    assert_eq!(deserialize_inners(&mut d), Ok(vec![nine(), nine()]));
    assert_eq!(expect_token(&mut d), Ok(Token::Bool(false)));
    let mut d = Replay::new(vec![Token::SeqStart(9), Token::End]);
    assert_eq!(deserialize_inners(&mut d), Ok(vec![]));
    let mut d = Replay::new(vec![Token::MapStart(0), Token::End]);
    assert_eq!(
        deserialize_inners(&mut d),
        Err(syntax("expected SeqStart, found MapStart"))
    );
    let mut d = Replay::new(vec![Token::SeqStart(1), Token::Null]);
    assert_eq!(
        deserialize_inners(&mut d),
        Err(syntax("expected StructStart, found Null"))
    );
}

#[test]
fn animal_comes_from_any_source() {
    let mut d = Replay::new(vec![
        Token::EnumStart("Animal", "Frog", 2),
        Token::Str("Henry"),
        Token::I32(349),
        Token::End,
        Token::EnumStart("Animal", "Dog", 0),
        Token::End,
    ]);
    assert_eq!(
        Animal::deserialize(&mut d),
        Ok(Animal::Frog("Henry".to_string(), 349))
    );
    assert_eq!(Animal::deserialize(&mut d), Ok(Animal::Dog));
    assert_eq!(Animal::deserialize(&mut d), Err(Error::EndOfStream));
}

#[test]
fn animals_of_other_names_are_unexpected() {
    let mut d = Replay::new(vec![Token::EnumStart("Plant", "Dog", 0), Token::End]);
    assert_eq!(
        Animal::deserialize(&mut d),
        Err(Error::UnexpectedName("found EnumStart".to_string()))
    );
    let mut d = Replay::new(vec![Token::EnumStart("Animal", "Toad", 0), Token::End]);
    assert_eq!(
        Animal::deserialize(&mut d),
        Err(Error::UnexpectedName("found EnumStart".to_string()))
    );
}

#[test]
fn broken_animals_are_refused() {
    let mut d = Replay::new(vec![Token::EnumStart("Animal", "Dog", 0), Token::Null]);
    assert_eq!(
        Animal::deserialize(&mut d),
        Err(syntax("expected End, found Null"))
    );
    let mut d = Replay::new(vec![
        Token::EnumStart("Animal", "Frog", 2),
        Token::Int(1),
        Token::Int(2),
        Token::End,
    ]);
    assert_eq!(
        Animal::deserialize(&mut d),
        Err(syntax("expected Str, String, found Int"))
    );
    let mut d = Replay::new(vec![
        Token::EnumStart("Animal", "Frog", 2),
        Token::Str("x"),
        Token::U64(u64::MAX),
        Token::End,
    ]);
    assert_eq!(
        Animal::deserialize(&mut d),
        Err(Error::ConversionError("found U64".to_string()))
    );
}

#[test]
fn animal_asked_of_a_struct_source_is_a_syntax_error() {
    let mut d = OuterAdapter::new(Outer { inner: vec![] });
    assert_eq!(
        Animal::deserialize(&mut d),
        Err(syntax("expected EnumStart, found StructStart"))
    );
}
