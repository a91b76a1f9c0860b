use value_stream::char_map::CharMap;
use value_stream::de::Deserializer;
use value_stream::decoder::Decoder;
use value_stream::error::Error;
use value_stream::outer::{Inner, Outer, OuterAdapter};
use value_stream::token::{Token, TokenKind};

fn mixed_map() -> CharMap {
    let mut map = CharMap::new();
    map.insert("1".to_string(), Some('a'));
    map.insert("2".to_string(), None);
    map.insert("3".to_string(), Some('b'));
    map.insert("4".to_string(), None);
    map.insert("5".to_string(), Some('c'));
    map
}

fn outer_0_0() -> Outer {
    Outer { inner: vec![] }
}

fn outer_1_0() -> Outer {
    Outer { inner: vec![Inner { a: (), b: 5, c: CharMap::new() }] }
}

fn outer_1_5() -> Outer {
    Outer { inner: vec![Inner { a: (), b: 5, c: mixed_map() }] }
}

fn drain(adapter: &mut OuterAdapter) -> Vec<Token> {
    let mut tokens = Vec::new();
    while let Some(token) = adapter.next() {
        tokens.push(token.unwrap());
    }
    tokens
}

fn syntax(text: &str) -> Error {
    Error::SyntaxError(text.to_string())
}

#[test]
fn confirm_leaves_the_value_alone() {
    let outer = outer_1_5();
    outer.confirm();
    assert_eq!(outer, outer_1_5());
    assert_eq!(outer.clone(), outer_1_5());
}

#[test]
fn decoder_0_0_round_trips() {
    let mut d = OuterAdapter::new(outer_0_0());
    let value = Outer::decode(&mut d).unwrap();
    assert_eq!(value, outer_0_0());
    assert_eq!(value.inner.len(), 0);
}

#[test]
fn decoder_1_0_round_trips() {
    let mut d = OuterAdapter::new(outer_1_0());
    let value = Outer::decode(&mut d).unwrap();
    assert_eq!(value, outer_1_0());
}

#[test]
fn decoder_1_5_round_trips() {
    let mut d = OuterAdapter::new(outer_1_5());
    let value = Outer::decode(&mut d).unwrap();
    assert_eq!(value, outer_1_5());
}

#[test]
fn deserializer_0_0_round_trips() {
    let mut d = OuterAdapter::new(outer_0_0());
    let value = Outer::deserialize(&mut d).unwrap();
    assert_eq!(value, outer_0_0());
    assert_eq!(value.inner.len(), 0);
}

#[test]
fn deserializer_1_0_round_trips() {
    let mut d = OuterAdapter::new(outer_1_0());
    let value = Outer::deserialize(&mut d).unwrap();
    assert_eq!(value, outer_1_0());
}

#[test]
fn deserializer_1_5_round_trips() {
    let mut d = OuterAdapter::new(outer_1_5());
    let value = Outer::deserialize(&mut d).unwrap();
    assert_eq!(value, outer_1_5());
}

#[test]
fn several_inner_structs_keep_their_order() {
    let mut second = CharMap::new();
    second.insert("k".to_string(), Some('z'));
    let outer = || Outer {
        inner: vec![
            Inner { a: (), b: 1, c: mixed_map() },
            Inner { a: (), b: 2, c: CharMap::new() },
            Inner { a: (), b: 3, c: second.clone() },
        ],
    };
    let value = Outer::decode(&mut OuterAdapter::new(outer())).unwrap();
    assert_eq!(value, outer());
    assert_eq!(value.inner[0].b, 1);
    assert_eq!(value.inner[1].b, 2);
    assert_eq!(value.inner[2].b, 3);
    let value = Outer::deserialize(&mut OuterAdapter::new(outer())).unwrap();
    assert_eq!(value, outer());
}

#[test]
fn mixed_presence_survives_either_way() {
    for value in [
        Outer::decode(&mut OuterAdapter::new(outer_1_5())).unwrap(),
        Outer::deserialize(&mut OuterAdapter::new(outer_1_5())).unwrap(),
    ] {
        let map = &value.inner[0].c;
        assert_eq!(map.len(), 5);
        assert_eq!(map.get("1"), Some(Some('a')));
        assert_eq!(map.get("2"), Some(None));
        assert_eq!(map.get("3"), Some(Some('b')));
        assert_eq!(map.get("4"), Some(None));
        assert_eq!(map.get("5"), Some(Some('c')));
        assert_eq!(map.get("6"), None);
    }
}

#[test]
fn empty_sequence_tokens_close_at_once() {
    let mut d = OuterAdapter::new(outer_0_0());
    assert_eq!(
        drain(&mut d),
        vec![
            Token::StructStart("Outer", 1),
            Token::Str("inner"),
            Token::SeqStart(0),
            Token::End,
            Token::End,
        ]
    );
}

#[test]
fn tokens_of_one_inner_struct() {
    let mut map = CharMap::new();
    map.insert("x".to_string(), Some('q'));
    map.insert("y".to_string(), None);
    let outer = Outer { inner: vec![Inner { a: (), b: 7, c: map }] };
    let mut d = OuterAdapter::new(outer);
    assert_eq!(
        drain(&mut d),
        vec![
            Token::StructStart("Outer", 1),
            Token::Str("inner"),
            Token::SeqStart(1),
            Token::StructStart("Inner", 3),
            Token::Str("a"),
            Token::Null,
            Token::Str("b"),
            Token::Uint(7),
            Token::Str("c"),
            Token::MapStart(2),
            Token::String("y".to_string()),
            Token::Option(false),
            Token::String("x".to_string()),
            Token::Option(true),
            Token::Char('q'),
            Token::End,
            Token::End,
            Token::End,
            Token::End,
        ]
    );
}

#[test]
fn outer_tokens_are_well_nested() {
    let mut d = OuterAdapter::new(outer_1_5());
    let mut depth: i64 = 0;
    let mut starts = 0;
    let mut ends = 0;
    for token in drain(&mut d) {
        match token {
            Token::EnumStart(..)
            | Token::StructStart(..)
            | Token::SeqStart(_)
            | Token::MapStart(_)
            | Token::TupleStart(_) => {
                depth += 1;
                starts += 1;
            }
            Token::End => {
                depth -= 1;
                ends += 1;
                assert!(depth >= 0);
            }
            _ => {}
        }
    }
    assert_eq!(depth, 0);
    assert_eq!(starts, 4);
    assert_eq!(ends, 4);
}

#[test]
fn spent_outer_decoder_refuses_every_request() {
    let mut d = OuterAdapter::new(outer_1_5());
    Outer::decode(&mut d).unwrap();
    assert_eq!(Outer::decode(&mut d), Err(syntax("expected InnerState or OuterState")));
    assert_eq!(Inner::decode(&mut d), Err(syntax("expected InnerState or OuterState")));
    assert_eq!(d.read_nil(), Err(syntax("NullState")));
    assert_eq!(d.read_uint(), Err(syntax("UintState")));
    assert_eq!(d.read_char(), Err(syntax("")));
    assert_eq!(d.read_str(), Err(syntax("")));
    let r: Result<(), Error> = d.read_struct_field("inner", 0, |_| Ok(()));
    assert_eq!(r, Err(syntax("expected FieldState")));
    let r: Result<(), Error> = d.read_option(|_, _| Ok(()));
    assert_eq!(r, Err(syntax("expected OptionState")));
    let r: Result<(), Error> = d.read_seq(|_, _| Ok(()));
    assert_eq!(r, Err(syntax("expected VecState")));
    let r: Result<(), Error> = d.read_map(|_, _| Ok(()));
    assert_eq!(r, Err(syntax("expected MapState")));
}

#[test]
fn spent_outer_deserializer_hands_out_nothing() {
    let mut d = OuterAdapter::new(outer_1_5());
    Outer::deserialize(&mut d).unwrap();
    assert_eq!(d.next(), None);
    assert_eq!(Outer::deserialize(&mut d), Err(Error::EndOfStream));
    assert_eq!(Inner::deserialize(&mut d), Err(Error::EndOfStream));
}

#[test]
fn outer_asked_of_an_inner_is_refused() {
    let mut d = OuterAdapter::new(outer_1_0());
    let r: Result<(), Error> = d.read_struct("Outer", 1, |d| {
        d.read_struct_field("inner", 0, |d| {
            d.read_seq(|d, len| {
                assert_eq!(len, 1);
                d.read_struct("Outer", 1, |_| Ok(()))
            })
        })
    });
    assert_eq!(r, Err(syntax("expected Inner")));
}

#[test]
fn inner_asked_of_an_outer_is_refused() {
    let mut d = OuterAdapter::new(outer_1_0());
    assert_eq!(Inner::decode(&mut d), Err(syntax("expected Outer")));
    let mut d = OuterAdapter::new(outer_1_0());
    let r: Result<(), Error> = d.read_struct("Inner", 3, |_| Ok(()));
    assert_eq!(r, Err(syntax("expected Outer")));
}

#[test]
fn field_of_another_name_is_refused() {
    let mut d = OuterAdapter::new(outer_1_0());
    let r: Result<(), Error> =
        d.read_struct("Outer", 1, |d| d.read_struct_field("outer", 0, |_| Ok(())));
    assert_eq!(r, Err(syntax("expected FieldState")));
}

#[test]
fn compound_requests_lay_their_parts_out_in_order() {
    let mut d = OuterAdapter::new(outer_1_5());
    let r: Result<Vec<(String, Option<char>)>, Error> = d.read_struct("Outer", 1, |d| {
        d.read_struct_field("inner", 0, |d| {
            d.read_seq(|d, len| {
                assert_eq!(len, 1);
                d.read_seq_elt(0, |d| {
                    d.read_struct("Inner", 3, |d| {
                        d.read_struct_field("a", 0, |d| d.read_nil())?;
                        assert_eq!(d.read_struct_field("b", 1, |d| d.read_uint()), Ok(5));
                        d.read_struct_field("c", 2, |d| {
                            d.read_map(|d, len| {
                                assert_eq!(len, 5);
                                let mut entries = Vec::new();
                                for at in 0..len {
                                    let key = d.read_map_elt_key(at, |d| d.read_str())?;
                                    let value = d.read_map_elt_val(at, |d| {
                                        d.read_option(|d, present| {
                                            if present {
                                                Ok(Some(d.read_char()?))
                                            } else {
                                                Ok(None)
                                            }
                                        })
                                    })?;
                                    entries.push((key, value));
                                }
                                Ok(entries)
                            })
                        })
                    })
                })
            })
        })
    });
    assert_eq!(
        r,
        Ok(vec![
            ("5".to_string(), Some('c')),
            ("4".to_string(), None),
            ("3".to_string(), Some('b')),
            ("2".to_string(), None),
            ("1".to_string(), Some('a')),
        ])
    );
}

#[test]
fn requests_for_what_the_struct_never_holds_are_refused() {
    let mut d = OuterAdapter::new(outer_1_0());
    assert_eq!(d.read_u64(), Err(syntax("")));
    assert_eq!(d.read_int(), Err(syntax("")));
    assert_eq!(d.read_bool(), Err(syntax("")));
    assert_eq!(d.read_f32(), Err(syntax("")));
    let r: Result<(), Error> = d.read_enum("Outer", |_| Ok(()));
    assert_eq!(r, Err(syntax("")));
    let r: Result<(), Error> = d.read_enum_variant(&["Outer"], |_, _| Ok(()));
    assert_eq!(r, Err(syntax("")));
    let r: Result<(), Error> = d.read_enum_variant_arg(0, |_| Ok(()));
    assert_eq!(r, Err(syntax("")));
    assert_eq!(Outer::decode(&mut d), Ok(outer_1_0()));
}

#[test]
fn wrong_scalar_takes_the_top_off() {
    let mut d = OuterAdapter::new(outer_1_0());
    assert_eq!(d.read_uint(), Err(syntax("UintState")));
    assert_eq!(Outer::decode(&mut d), Err(syntax("expected InnerState or OuterState")));
}

#[test]
fn outer_hooks_word_their_errors() {
    let mut d = OuterAdapter::new(outer_0_0());
    assert_eq!(d.end_of_stream_error(), Error::EndOfStream);
    assert_eq!(
        d.syntax_error(Token::Uint(3), &[TokenKind::EndKind, TokenKind::StrKind]),
        syntax("expected End, Str, found Uint")
    );
    assert_eq!(
        d.syntax_error(Token::Null, &[TokenKind::StructStartKind]),
        syntax("expected StructStart, found Null")
    );
    assert_eq!(d.syntax_error(Token::End, &[]), syntax("expected , found End"));
    assert_eq!(
        d.unexpected_name_error(Token::Str("x")),
        Error::UnexpectedName("found Str".to_string())
    );
    assert_eq!(
        d.conversion_error(Token::I64(-1)),
        Error::ConversionError("found I64".to_string())
    );
    let r: Result<u8, Error> = d.missing_field("b");
    assert_eq!(r, Err(Error::MissingField("b")));
    assert_eq!(d.error("boom"), Error::OtherError("boom".to_string()));
}

#[test]
fn struct_of_another_name_is_an_unexpected_name() {
    let mut d = OuterAdapter::new(outer_1_0());
    assert_eq!(
        Inner::deserialize(&mut d),
        Err(Error::UnexpectedName("found StructStart".to_string()))
    );
}

#[test]
fn token_that_starts_no_struct_is_a_syntax_error() {
    let mut d = OuterAdapter::new(outer_1_0());
    d.next();
    assert_eq!(
        Outer::deserialize(&mut d),
        Err(syntax("expected StructStart, found Str"))
    );
}
