use value_stream::animal::{Animal, AnimalAdapter};
use value_stream::text::find_name;
use value_stream::de::Deserializer;
use value_stream::decoder::Decoder;
use value_stream::error::Error;
use value_stream::token::Token;

fn henry() -> Animal {
    Animal::Frog("Henry".to_string(), 349)
}

fn drain(adapter: &mut AnimalAdapter) -> Vec<Token> {
    let mut tokens = Vec::new();
    while let Some(token) = adapter.next() {
        tokens.push(token.unwrap());
    }
    tokens
}

#[test]
fn decoder_dog_round_trips() {
    let animal = Animal::Dog;
    let mut d = AnimalAdapter::new(Animal::Dog);
    let value = Animal::decode(&mut d).unwrap();
    assert_eq!(value, animal);
}

#[test]
fn decoder_frog_round_trips() {
    let animal = henry();
    let mut d = AnimalAdapter::new(henry());
    let value = Animal::decode(&mut d).unwrap();
    assert_eq!(value, animal);
    assert_eq!(value, Animal::Frog("Henry".to_string(), 349));
}

#[test]
fn deserializer_dog_round_trips() {
    let mut d = AnimalAdapter::new(Animal::Dog);
    let value = Animal::deserialize(&mut d).unwrap();
    assert_eq!(value, Animal::Dog);
}

#[test]
fn deserializer_frog_round_trips() {
    let mut d = AnimalAdapter::new(henry());
    let value = Animal::deserialize(&mut d).unwrap();
    assert_eq!(value, henry());
}

#[test]
fn dog_tokens_are_start_and_end() {
    let mut d = AnimalAdapter::new(Animal::Dog);
    assert_eq!(
        drain(&mut d),
        vec![Token::EnumStart("Animal", "Dog", 0), Token::End]
    );
}

#[test]
fn frog_tokens_come_in_field_order() {
    let mut d = AnimalAdapter::new(henry());
    assert_eq!(
        drain(&mut d),
        vec![
            Token::EnumStart("Animal", "Frog", 2),
            Token::String("Henry".to_string()),
            Token::Int(349),
            Token::End,
        ]
    );
}

#[test]
fn frog_tokens_are_well_nested() {
    let mut d = AnimalAdapter::new(henry());
    let mut depth: i64 = 0;
    for token in drain(&mut d) {
        match token {
            Token::EnumStart(..)
            | Token::StructStart(..)
            | Token::SeqStart(_)
            | Token::MapStart(_)
            | Token::TupleStart(_) => depth += 1,
            Token::End => {
                depth -= 1;
                assert!(depth >= 0);
            }
            _ => {}
        }
    }
    assert_eq!(depth, 0);
}

#[test]
fn spent_animal_decoder_refuses_every_request() {
    let mut d = AnimalAdapter::new(henry());
    Animal::decode(&mut d).unwrap();
    assert_eq!(Animal::decode(&mut d), Err(Error::SyntaxError(String::new())));
    assert_eq!(d.read_int(), Err(Error::SyntaxError(String::new())));
    assert_eq!(d.read_str(), Err(Error::SyntaxError(String::new())));
    let names = ["Dog", "Frog"];
    let r: Result<usize, Error> = d.read_enum_variant(&names, |_, at| Ok(at));
    assert_eq!(r, Err(Error::SyntaxError(String::new())));
}

#[test]
fn spent_animal_deserializer_hands_out_nothing() {
    let mut d = AnimalAdapter::new(henry());
    Animal::deserialize(&mut d).unwrap();
    assert_eq!(d.next(), None);
    assert_eq!(d.next(), None);
    assert_eq!(Animal::deserialize(&mut d), Err(Error::EndOfStream));
}

#[test]
fn enum_of_another_name_is_refused_and_the_animal_stays() {
    let mut d = AnimalAdapter::new(henry());
    let r: Result<(), Error> = d.read_enum("Plant", |_| Ok(()));
    assert_eq!(r, Err(Error::SyntaxError(String::new())));
    assert_eq!(Animal::decode(&mut d), Ok(henry()));
}

#[test]
fn variant_missing_from_the_candidates_is_refused() {
    let mut d = AnimalAdapter::new(henry());
    let names = ["Dog", "Toad"];
    let r: Result<usize, Error> = d.read_enum_variant(&names, |_, at| Ok(at));
    assert_eq!(r, Err(Error::SyntaxError(String::new())));
}

#[test]
fn variant_place_is_its_place_among_the_candidates() {
    let mut d = AnimalAdapter::new(henry());
    let names = ["Toad", "Frog", "Dog", "Frog"];
    let r: Result<usize, Error> = d.read_enum_variant(&names, |_, at| Ok(at));
    assert_eq!(r, Ok(1));
    assert_eq!(d.read_str(), Ok("Henry".to_string()));
    assert_eq!(d.read_int(), Ok(349));

    let mut d = AnimalAdapter::new(Animal::Dog);
    let r: Result<usize, Error> = d.read_enum_variant(&names, |_, at| Ok(at));
    assert_eq!(r, Ok(2));
}

#[test]
fn fields_must_be_asked_for_in_order() {
    let mut d = AnimalAdapter::new(henry());
    let names = ["Dog", "Frog"];
    let r: Result<isize, Error> = d.read_enum_variant(&names, |d, _| d.read_int());
    assert_eq!(r, Err(Error::SyntaxError(String::new())));
}

#[test]
fn requests_for_what_an_animal_never_holds_are_refused() {
    let mut d = AnimalAdapter::new(henry());
    assert_eq!(d.read_nil(), Err(Error::SyntaxError(String::new())));
    assert_eq!(d.read_uint(), Err(Error::SyntaxError(String::new())));
    assert_eq!(d.read_bool(), Err(Error::SyntaxError(String::new())));
    assert_eq!(d.read_char(), Err(Error::SyntaxError(String::new())));
    assert_eq!(d.read_f64(), Err(Error::SyntaxError(String::new())));
    let r: Result<(), Error> = d.read_struct("Animal", 2, |_| Ok(()));
    assert_eq!(r, Err(Error::SyntaxError(String::new())));
    let r: Result<(), Error> = d.read_map(|_, _| Ok(()));
    assert_eq!(r, Err(Error::SyntaxError(String::new())));
    let r: Result<(), Error> = d.read_option(|_, _| Ok(()));
    assert_eq!(r, Err(Error::SyntaxError(String::new())));
    assert_eq!(Animal::decode(&mut d), Ok(henry()));
}

#[test]
fn sequence_requests_pass_straight_to_the_continuation() {
    let mut d = AnimalAdapter::new(Animal::Dog);
    let r: Result<usize, Error> = d.read_seq(|_, len| Ok(len));
    assert_eq!(r, Ok(3));
    let r: Result<u8, Error> = d.read_seq_elt(0, |_| Ok(9));
    assert_eq!(r, Ok(9));
    let r: Result<u8, Error> = d.read_enum_variant_arg(1, |_| Ok(4));
    assert_eq!(r, Ok(4));
}

#[test]
fn error_hook_carries_the_message() {
    let mut d = AnimalAdapter::new(Animal::Dog);
    assert_eq!(d.error("boom"), Error::OtherError("boom".to_string()));
}

#[test]
fn animal_hooks_all_speak_of_syntax() {
    let mut d = AnimalAdapter::new(Animal::Dog);
    assert_eq!(d.end_of_stream_error(), Error::EndOfStream);
    assert_eq!(d.syntax_error(Token::Null, &[]), Error::SyntaxError(String::new()));
    assert_eq!(d.unexpected_name_error(Token::Null), Error::SyntaxError(String::new()));
    assert_eq!(d.conversion_error(Token::Null), Error::SyntaxError(String::new()));
    let r: Result<u8, Error> = d.missing_field("x");
    assert_eq!(r, Err(Error::SyntaxError(String::new())));
}

#[test]
fn find_name_gives_the_first_place() {
    assert_eq!(find_name(&["a", "b", "a"], "a"), Some(0));
    assert_eq!(find_name(&["a", "b", "a"], "b"), Some(1));
    assert_eq!(find_name(&["a", "b", "a"], "c"), None);
    assert_eq!(find_name(&[], "c"), None);
}
