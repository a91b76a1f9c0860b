//! The animal rebuilt from the tokens of any source.

use crate::animal::{Animal, AnimalView};
use crate::de::{deserialize_int, deserialize_string, expect_end, expect_token, Deserializer};
use crate::error::Error;
use crate::reading::{end_reading, int_reading, reported, string_reading, Failure, Reading};
use crate::text::same_text;
use crate::token::{Token, TokenKind};
use vstd::prelude::*;

verus! {

/// Reading an animal: the start of an enum named `Animal` with the name of a
/// variant, the fields of the variant, and the end.
pub open spec fn animal_reading(tokens: Seq<Token>) -> Reading<AnimalView> {
    if tokens.len() == 0 {
        Err(Failure::Ended)
    } else {
        match tokens[0] {
            Token::EnumStart(name, variant, _) => if name@ != "Animal"@ {
                Err(Failure::Misnamed(0))
            } else if variant@ == "Dog"@ {
                match end_reading(tokens.skip(1)) {
                    Err(failure) => Err(failure.later(1)),
                    Ok(_) => Ok((AnimalView::Dog, 2)),
                }
            } else if variant@ == "Frog"@ {
                match string_reading(tokens.skip(1)) {
                    Err(failure) => Err(failure.later(1)),
                    Ok((name, _)) => match int_reading(tokens.skip(2)) {
                        Err(failure) => Err(failure.later(2)),
                        Ok((number, _)) => match end_reading(tokens.skip(3)) {
                            Err(failure) => Err(failure.later(3)),
                            Ok(_) => Ok((AnimalView::Frog(name, number), 4)),
                        },
                    },
                }
            } else {
                Err(Failure::Misnamed(0))
            },
            _ => Err(Failure::Mismatch(0, seq![TokenKind::EnumStartKind])),
        }
    }
}

impl Animal {
    /// Rebuilds an animal from the tokens of `d`, as `animal_reading` reads
    /// it.
    pub fn deserialize<D: Deserializer>(d: &mut D) -> (r: Result<Animal, Error>)
        ensures
            final(d).pending().len() <= old(d).pending().len(),
            match animal_reading(old(d).pending()) {
                Ok((animal, used)) => (r matches Ok(out) && out@ == animal) && final(d).pending()
                    == old(d).pending().skip(used),
                Err(failure) => r matches Err(error) && reported::<D>(
                    old(d).pending(),
                    failure,
                    error,
                ),
            },
    {
        let ghost tokens = d.pending();
        proof {
            assert(tokens.len() > 1 ==> tokens.skip(1)[0] == tokens[1]);
            assert(tokens.len() > 2 ==> tokens.skip(2)[0] == tokens[2]);
            assert(tokens.len() > 3 ==> tokens.skip(3)[0] == tokens[3]);
            assert(tokens.len() > 1 ==> tokens.skip(1).skip(1) =~= tokens.skip(2));
            assert(tokens.len() > 2 ==> tokens.skip(2).skip(1) =~= tokens.skip(3));
            assert(tokens.len() > 3 ==> tokens.skip(3).skip(1) =~= tokens.skip(4));
        }
        let token = match expect_token(d) {
            Ok(token) => token,
            Err(error) => {
                return Err(error);
            },
        };
        match token {
            Token::EnumStart(name, variant, count) => {
                if !same_text(name, "Animal") {
                    return Err(d.unexpected_name_error(Token::EnumStart(name, variant, count)));
                }
                if same_text(variant, "Dog") {
                    match expect_end(d) {
                        Ok(_) => {},
                        Err(error) => {
                            return Err(error);
                        },
                    }
                    Ok(Animal::Dog)
                } else if same_text(variant, "Frog") {
                    let text = match deserialize_string(d) {
                        Ok(text) => text,
                        Err(error) => {
                            return Err(error);
                        },
                    };
                    let number = match deserialize_int(d) {
                        Ok(number) => number,
                        Err(error) => {
                            return Err(error);
                        },
                    };
                    match expect_end(d) {
                        Ok(_) => {},
                        Err(error) => {
                            return Err(error);
                        },
                    }
                    Ok(Animal::Frog(text, number))
                } else {
                    Err(d.unexpected_name_error(Token::EnumStart(name, variant, count)))
                }
            },
            other => {
                let expected = [TokenKind::EnumStartKind];
                assert(expected@ =~= seq![TokenKind::EnumStartKind]);
                Err(d.syntax_error(other, &expected))
            },
        }
    }
}

} // verus!
