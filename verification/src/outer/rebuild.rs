//! The nested struct rebuilt from the tokens of any source.

use crate::assoc::Key;
use crate::char_map::CharMap;
use crate::de::{
    deserialize_option_char, deserialize_uint, deserialize_unit, expect_token, string_from_token,
    Deserializer,
};
use crate::error::Error;
use crate::outer::{inner_views, Inner, InnerView, Outer};
use crate::reading::{
    after, fails_as, lemma_after_after, lemma_reported_later, option_char_reading, reported,
    string_reading, uint_reading, unit_reading, Failure, Reading,
};
use crate::text::same_text;
use crate::token::{Token, TokenKind};
use vstd::prelude::*;
use vstd::string::*;

verus! {

/// Reading the entries of a mapping up to the end that closes it, into the
/// entries read so far: each entry a key, a mark, and a character after the
/// mark where the mark says so. Of two entries with one key the later counts.
pub open spec fn entries_reading(tokens: Seq<Token>, sofar: Map<Key, Option<char>>) -> Reading<
    Map<Key, Option<char>>,
>
    decreases tokens.len(),
{
    if tokens.len() == 0 {
        Err(Failure::Ended)
    } else if tokens[0] is End {
        Ok((sofar, 1))
    } else {
        match string_reading(tokens) {
            Err(failure) => Err(failure),
            Ok((key, _)) => match option_char_reading(tokens.skip(1)) {
                Err(failure) => Err(failure.later(1)),
                Ok((value, used)) => if 1 <= used <= tokens.len() - 1 {
                    after(
                        1 + used,
                        entries_reading(tokens.skip(1 + used), sofar.insert(key, value)),
                    )
                } else {
                    Err(Failure::Ended)
                },
            },
        }
    }
}

/// Reading a mapping: a start, then entries up to the end that closes it.
/// The number that the start gives plays no part.
#[verifier::opaque]
pub open spec fn map_reading(tokens: Seq<Token>) -> Reading<Map<Key, Option<char>>> {
    if tokens.len() == 0 {
        Err(Failure::Ended)
    } else if tokens[0] is MapStart {
        after(1, entries_reading(tokens.skip(1), Map::empty()))
    } else {
        Err(Failure::Mismatch(0, seq![TokenKind::MapStartKind]))
    }
}

/// The names, in the order `a`, `b`, `c`, of the fields of an inner struct
/// that are not among those seen.
pub open spec fn missing_of_inner(a: bool, b: bool, c: bool) -> Seq<Seq<char>> {
    (if a {
        Seq::<Seq<char>>::empty()
    } else {
        seq!["a"@]
    }) + (if b {
        Seq::<Seq<char>>::empty()
    } else {
        seq!["b"@]
    }) + (if c {
        Seq::<Seq<char>>::empty()
    } else {
        seq!["c"@]
    })
}

/// Reading the fields of an inner struct up to the end that closes it, into
/// the fields read so far. The fields come in any order, each under its
/// name; of a field that comes twice the later counts.
pub open spec fn inner_fields_reading(
    tokens: Seq<Token>,
    a: Option<()>,
    b: Option<usize>,
    c: Option<Map<Key, Option<char>>>,
) -> Reading<InnerView>
    decreases tokens.len(),
{
    if tokens.len() == 0 {
        Err(Failure::Ended)
    } else {
        match tokens[0] {
            Token::End => if a is Some && b is Some && c is Some {
                Ok((InnerView { b: b->Some_0, c: c->Some_0 }, 1))
            } else {
                Err(Failure::Missing(missing_of_inner(a is Some, b is Some, c is Some)))
            },
            Token::Str(name) => if name@ == "a"@ {
                match unit_reading(tokens.skip(1)) {
                    Err(failure) => Err(failure.later(1)),
                    Ok((value, used)) => if 1 <= used <= tokens.len() - 1 {
                        after(
                            1 + used,
                            inner_fields_reading(tokens.skip(1 + used), Some(value), b, c),
                        )
                    } else {
                        Err(Failure::Ended)
                    },
                }
            } else if name@ == "b"@ {
                match uint_reading(tokens.skip(1)) {
                    Err(failure) => Err(failure.later(1)),
                    Ok((value, used)) => if 1 <= used <= tokens.len() - 1 {
                        after(
                            1 + used,
                            inner_fields_reading(tokens.skip(1 + used), a, Some(value), c),
                        )
                    } else {
                        Err(Failure::Ended)
                    },
                }
            } else if name@ == "c"@ {
                match map_reading(tokens.skip(1)) {
                    Err(failure) => Err(failure.later(1)),
                    Ok((value, used)) => if 1 <= used <= tokens.len() - 1 {
                        after(
                            1 + used,
                            inner_fields_reading(tokens.skip(1 + used), a, b, Some(value)),
                        )
                    } else {
                        Err(Failure::Ended)
                    },
                }
            } else {
                Err(Failure::Misnamed(0))
            },
            _ => Err(Failure::Mismatch(0, seq![TokenKind::EndKind, TokenKind::StrKind])),
        }
    }
}

/// Reading an inner struct: the start of a struct named `Inner`, then its
/// fields up to the end that closes it.
#[verifier::opaque]
pub open spec fn inner_reading(tokens: Seq<Token>) -> Reading<InnerView> {
    if tokens.len() == 0 {
        Err(Failure::Ended)
    } else {
        match tokens[0] {
            Token::StructStart(name, _) => if name@ == "Inner"@ {
                after(1, inner_fields_reading(tokens.skip(1), None, None, None))
            } else {
                Err(Failure::Misnamed(0))
            },
            _ => Err(Failure::Mismatch(0, seq![TokenKind::StructStartKind])),
        }
    }
}

/// Reading inner structs up to the end that closes their sequence, after
/// those read so far.
pub open spec fn inners_reading(tokens: Seq<Token>, sofar: Seq<InnerView>) -> Reading<
    Seq<InnerView>,
>
    decreases tokens.len(),
{
    if tokens.len() == 0 {
        Err(Failure::Ended)
    } else if tokens[0] is End {
        Ok((sofar, 1))
    } else {
        match inner_reading(tokens) {
            Err(failure) => Err(failure),
            Ok((inner, used)) => if 1 <= used <= tokens.len() {
                after(used, inners_reading(tokens.skip(used), sofar.push(inner)))
            } else {
                Err(Failure::Ended)
            },
        }
    }
}

/// Reading a sequence of inner structs: a start, then elements up to the
/// end that closes it. The number that the start gives plays no part.
#[verifier::opaque]
pub open spec fn vec_reading(tokens: Seq<Token>) -> Reading<Seq<InnerView>> {
    if tokens.len() == 0 {
        Err(Failure::Ended)
    } else if tokens[0] is SeqStart {
        after(1, inners_reading(tokens.skip(1), Seq::empty()))
    } else {
        Err(Failure::Mismatch(0, seq![TokenKind::SeqStartKind]))
    }
}

/// Reading the field of an outer struct up to the end that closes it, into
/// the field read so far.
pub open spec fn outer_fields_reading(tokens: Seq<Token>, inner: Option<Seq<InnerView>>) -> Reading<
    Seq<InnerView>,
>
    decreases tokens.len(),
{
    if tokens.len() == 0 {
        Err(Failure::Ended)
    } else {
        match tokens[0] {
            Token::End => if inner is Some {
                Ok((inner->Some_0, 1))
            } else {
                Err(Failure::Missing(seq!["inner"@]))
            },
            Token::Str(name) => if name@ == "inner"@ {
                match vec_reading(tokens.skip(1)) {
                    Err(failure) => Err(failure.later(1)),
                    Ok((value, used)) => if 1 <= used <= tokens.len() - 1 {
                        after(1 + used, outer_fields_reading(tokens.skip(1 + used), Some(value)))
                    } else {
                        Err(Failure::Ended)
                    },
                }
            } else {
                Err(Failure::Misnamed(0))
            },
            _ => Err(Failure::Mismatch(0, seq![TokenKind::EndKind, TokenKind::StrKind])),
        }
    }
}

/// Reading an outer struct: the start of a struct named `Outer`, then its
/// field up to the end that closes it.
pub open spec fn outer_reading(tokens: Seq<Token>) -> Reading<Seq<InnerView>> {
    if tokens.len() == 0 {
        Err(Failure::Ended)
    } else {
        match tokens[0] {
            Token::StructStart(name, _) => if name@ == "Outer"@ {
                after(1, outer_fields_reading(tokens.skip(1), None))
            } else {
                Err(Failure::Misnamed(0))
            },
            _ => Err(Failure::Mismatch(0, seq![TokenKind::StructStartKind])),
        }
    }
}

/// The entries of a mapping that are read take at least one token and no
/// more than there are.
pub proof fn lemma_entries_reading_fits(tokens: Seq<Token>, sofar: Map<Key, Option<char>>)
    ensures
        entries_reading(tokens, sofar) matches Ok((_, used)) ==> 1 <= used <= tokens.len(),
    decreases tokens.len(),
{
    if tokens.len() > 0 && !(tokens[0] is End) {
        match string_reading(tokens) {
            Err(_) => {},
            Ok((key, _)) => match option_char_reading(tokens.skip(1)) {
                Err(_) => {},
                Ok((value, used)) => {
                    if 1 <= used <= tokens.len() - 1 {
                        lemma_entries_reading_fits(
                            tokens.skip(1 + used),
                            sofar.insert(key, value),
                        );
                    }
                },
            },
        }
    }
}

/// A mapping that is read takes at least two tokens and no more than there
/// are.
pub proof fn lemma_map_reading_fits(tokens: Seq<Token>)
    ensures
        map_reading(tokens) matches Ok((_, used)) ==> 2 <= used <= tokens.len(),
{
    reveal(map_reading);
    if tokens.len() > 0 {
        lemma_entries_reading_fits(tokens.skip(1), Map::empty());
    }
}

/// The fields of a struct that are read take at least one token and no more
/// than there are.
pub proof fn lemma_inner_fields_reading_fits(
    tokens: Seq<Token>,
    a: Option<()>,
    b: Option<usize>,
    c: Option<Map<Key, Option<char>>>,
)
    ensures
        inner_fields_reading(tokens, a, b, c) matches Ok((_, used)) ==> 1 <= used <= tokens.len(),
    decreases tokens.len(),
{
    if tokens.len() > 0 {
        match tokens[0] {
            Token::Str(name) => {
                if name@ == "a"@ {
                    match unit_reading(tokens.skip(1)) {
                        Err(_) => {},
                        Ok((value, used)) => {
                            if 1 <= used <= tokens.len() - 1 {
                                lemma_inner_fields_reading_fits(
                                    tokens.skip(1 + used),
                                    Some(value),
                                    b,
                                    c,
                                );
                            }
                        },
                    }
                } else if name@ == "b"@ {
                    match uint_reading(tokens.skip(1)) {
                        Err(_) => {},
                        Ok((value, used)) => {
                            if 1 <= used <= tokens.len() - 1 {
                                lemma_inner_fields_reading_fits(
                                    tokens.skip(1 + used),
                                    a,
                                    Some(value),
                                    c,
                                );
                            }
                        },
                    }
                } else if name@ == "c"@ {
                    match map_reading(tokens.skip(1)) {
                        Err(_) => {},
                        Ok((value, used)) => {
                            if 1 <= used <= tokens.len() - 1 {
                                lemma_inner_fields_reading_fits(
                                    tokens.skip(1 + used),
                                    a,
                                    b,
                                    Some(value),
                                );
                            }
                        },
                    }
                }
            },
            _ => {},
        }
    }
}

/// An inner struct that is read takes at least two tokens and no more than
/// there are.
pub proof fn lemma_inner_reading_fits(tokens: Seq<Token>)
    ensures
        inner_reading(tokens) matches Ok((_, used)) ==> 2 <= used <= tokens.len(),
{
    reveal(inner_reading);
    if tokens.len() > 0 {
        lemma_inner_fields_reading_fits(tokens.skip(1), None, None, None);
    }
}

/// Inner structs that are read take at least one token and no more than
/// there are.
pub proof fn lemma_inners_reading_fits(tokens: Seq<Token>, sofar: Seq<InnerView>)
    ensures
        inners_reading(tokens, sofar) matches Ok((_, used)) ==> 1 <= used <= tokens.len(),
    decreases tokens.len(),
{
    if tokens.len() > 0 && !(tokens[0] is End) {
        lemma_inner_reading_fits(tokens);
        match inner_reading(tokens) {
            Err(_) => {},
            Ok((inner, used)) => {
                if 1 <= used <= tokens.len() {
                    lemma_inners_reading_fits(tokens.skip(used), sofar.push(inner));
                }
            },
        }
    }
}

/// A sequence that is read takes at least two tokens and no more than there
/// are.
pub proof fn lemma_vec_reading_fits(tokens: Seq<Token>)
    ensures
        vec_reading(tokens) matches Ok((_, used)) ==> 2 <= used <= tokens.len(),
{
    reveal(vec_reading);
    if tokens.len() > 0 {
        lemma_inners_reading_fits(tokens.skip(1), Seq::empty());
    }
}

/// Rebuilds a mapping from the tokens of `d`, as `map_reading` reads it.
pub fn deserialize_map<D: Deserializer>(d: &mut D) -> (r: Result<CharMap, Error>)
    ensures
        final(d).pending().len() <= old(d).pending().len(),
        match map_reading(old(d).pending()) {
            Ok((map, used)) => (r matches Ok(out) && out@ == map)
                && final(d).pending() == old(d).pending().skip(used),
            Err(failure) => r matches Err(error) && reported::<D>(
                old(d).pending(),
                failure,
                error,
            ),
        },
{
    proof {
        reveal(map_reading);
    }
    let ghost tokens = d.pending();
    let token = match expect_token(d) {
        Ok(token) => token,
        Err(error) => {
            return Err(error);
        },
    };
    match token {
        Token::MapStart(_) => {},
        other => {
            let expected = [TokenKind::MapStartKind];
            assert(expected@ =~= seq![TokenKind::MapStartKind]);
            return Err(d.syntax_error(other, &expected));
        },
    }
    let ghost mut at: int = 1;
    let mut map = CharMap::new();
    loop
        invariant
            tokens == old(d).pending(),
            1 <= at <= tokens.len(),
            d.pending() == tokens.skip(at),
            map_reading(tokens) == after(at, entries_reading(d.pending(), map@)),
        decreases d.pending().len(),
    {
        let ghost now = d.pending();
        let ghost sofar = map@;
        proof {
            assert(now.len() > 0 ==> now[0] == tokens[at]);
            assert(now.len() > 1 ==> now.skip(1)[0] == tokens[at + 1]);
            assert(now.len() > 2 ==> now.skip(1)[1] == tokens[at + 2]);
            assert(now.len() > 0 ==> now.skip(1) =~= tokens.skip(at + 1));
        }
        let token = match expect_token(d) {
            Ok(token) => token,
            Err(error) => {
                return Err(error);
            },
        };
        if let Token::End = token {
            return Ok(map);
        }
        let key = match string_from_token(d, token) {
            Ok(key) => key,
            Err(error) => {
                return Err(error);
            },
        };
        let value = match deserialize_option_char(d) {
            Ok(value) => value,
            Err(error) => {
                return Err(error);
            },
        };
        proof {
            let used = option_char_reading(now.skip(1))->Ok_0.1;
            assert(now.skip(1).skip(used) =~= now.skip(1 + used));
            assert(now.skip(1 + used) =~= tokens.skip(at + 1 + used));
            lemma_after_after(
                at,
                1 + used,
                entries_reading(now.skip(1 + used), sofar.insert(key@, value)),
            );
            at = at + 1 + used;
        }
        map.insert(key, value);
    }
}

/// The sorts of token that may come where a field of a struct is due.
fn field_or_end() -> (kinds: [TokenKind; 2])
    ensures
        kinds@ == seq![TokenKind::EndKind, TokenKind::StrKind],
{
    let kinds = [TokenKind::EndKind, TokenKind::StrKind];
    assert(kinds@ =~= seq![TokenKind::EndKind, TokenKind::StrKind]);
    kinds
}

/// The sort of token that starts a struct.
fn struct_start() -> (kinds: [TokenKind; 1])
    ensures
        kinds@ == seq![TokenKind::StructStartKind],
{
    let kinds = [TokenKind::StructStartKind];
    assert(kinds@ =~= seq![TokenKind::StructStartKind]);
    kinds
}

/// The view of a mapping that may not be there.
pub open spec fn map_view(map: Option<CharMap>) -> Option<Map<Key, Option<char>>> {
    match map {
        Some(map) => Some(map@),
        None => None,
    }
}

/// The views of a sequence that may not be there.
pub open spec fn vec_view(items: Option<Vec<Inner>>) -> Option<Seq<InnerView>> {
    match items {
        Some(items) => Some(inner_views(items@)),
        None => None,
    }
}

impl Inner {
    /// Rebuilds an inner struct from the tokens of `d`, as `inner_reading`
    /// reads it. A field that never comes is asked of `d`.
    pub fn deserialize<D: Deserializer>(d: &mut D) -> (r: Result<Inner, Error>)
        ensures
            final(d).pending().len() <= old(d).pending().len(),
            match inner_reading(old(d).pending()) {
                Ok((inner, used)) => (r matches Ok(out) && out@ == inner) && final(d).pending()
                    == old(d).pending().skip(used),
                Err(failure) => fails_as::<D, Inner>(old(d).pending(), failure, r),
            },
    {
        proof {
            reveal(inner_reading);
        }
        let ghost tokens = d.pending();
        let token = match expect_token(d) {
            Ok(token) => token,
            Err(error) => {
                return Err(error);
            },
        };
        proof {
            assert(seq![token] + tokens.skip(1) =~= tokens);
            lemma_inner_reading_fits(tokens);
            if inner_reading(tokens) is Ok {
                let used = inner_reading(tokens)->Ok_0.1;
                assert(tokens.skip(1).skip(used - 1) =~= tokens.skip(used));
            }
        }
        Inner::deserialize_token(d, token)
    }

    /// Rebuilds an inner struct from `token` and the tokens of `d` after it,
    /// as `inner_reading` reads it. A field that never comes is asked of
    /// `d`.
    pub fn deserialize_token<D: Deserializer>(d: &mut D, token: Token) -> (r: Result<Inner, Error>)
        ensures
            final(d).pending().len() <= old(d).pending().len(),
            match inner_reading(seq![token] + old(d).pending()) {
                Ok((inner, used)) => (r matches Ok(out) && out@ == inner) && final(d).pending()
                    == old(d).pending().skip(used - 1),
                Err(failure) => fails_as::<D, Inner>(seq![token] + old(d).pending(), failure, r),
            },
    {
        let ghost whole = seq![token] + d.pending();
        proof {
            reveal(inner_reading);
            assert(whole[0] == token);
            assert(whole.skip(1) =~= d.pending());
        }
        match token {
            Token::StructStart(name, count) => {
                if !same_text(name, "Inner") {
                    return Err(d.unexpected_name_error(Token::StructStart(name, count)));
                }
            },
            other => {
                let expected = struct_start();
                return Err(d.syntax_error(other, &expected));
            },
        }
        let ghost mut at: int = 1;
        let mut a: Option<()> = None;
        let mut b: Option<usize> = None;
        let mut c: Option<CharMap> = None;
        loop
            invariant
                whole == seq![token] + old(d).pending(),
                1 <= at <= whole.len(),
                d.pending() == whole.skip(at),
                inner_reading(whole) == after(
                    at,
                    inner_fields_reading(d.pending(), a, b, map_view(c)),
                ),
            decreases d.pending().len(),
        {
            let ghost now = d.pending();
            let ghost seen = map_view(c);
            proof {
                assert(now.len() > 0 ==> now[0] == whole[at]);
                assert(now.len() > 1 ==> now.skip(1)[0] == whole[at + 1]);
                assert(now.len() > 0 ==> now.skip(1) =~= whole.skip(at + 1));
                assert(now.len() > 1 ==> now.skip(1).skip(1) =~= now.skip(2));
                lemma_map_reading_fits(now.skip(1));
            }
            let token = match expect_token(d) {
                Ok(token) => token,
                Err(error) => {
                    return Err(error);
                },
            };
            match token {
                Token::End => {
                    let ghost lacking = missing_of_inner(a is Some, b is Some, c is Some);
                    let a = match a {
                        Some(a) => a,
                        None => match d.missing_field::<()>("a") {
                            Ok(a) => a,
                            Err(error) => {
                                assert(lacking[0] == "a"@);
                                return Err(error);
                            },
                        },
                    };
                    let b = match b {
                        Some(b) => b,
                        None => match d.missing_field::<usize>("b") {
                            Ok(b) => b,
                            Err(error) => {
                                assert(!D::has_defaults() ==> lacking[0] == "b"@);
                                return Err(error);
                            },
                        },
                    };
                    let c = match c {
                        Some(c) => c,
                        None => match d.missing_field::<CharMap>("c") {
                            Ok(c) => c,
                            Err(error) => {
                                assert(!D::has_defaults() ==> lacking[0] == "c"@);
                                return Err(error);
                            },
                        },
                    };
                    return Ok(Inner { a, b, c });
                },
                Token::Str(name) => {
                    if same_text(name, "a") {
                        match deserialize_unit(d) {
                            Ok(value) => {
                                a = Some(value);
                                proof {
                                    lemma_after_after(
                                        at,
                                        2,
                                        inner_fields_reading(now.skip(2), a, b, seen),
                                    );
                                    assert(now.skip(2) =~= whole.skip(at + 2));
                                    at = at + 2;
                                }
                            },
                            Err(error) => {
                                return Err(error);
                            },
                        }
                    } else if same_text(name, "b") {
                        match deserialize_uint(d) {
                            Ok(value) => {
                                b = Some(value);
                                proof {
                                    lemma_after_after(
                                        at,
                                        2,
                                        inner_fields_reading(now.skip(2), a, b, seen),
                                    );
                                    assert(now.skip(2) =~= whole.skip(at + 2));
                                    at = at + 2;
                                }
                            },
                            Err(error) => {
                                return Err(error);
                            },
                        }
                    } else if same_text(name, "c") {
                        match deserialize_map(d) {
                            Ok(value) => {
                                proof {
                                    let used = map_reading(now.skip(1))->Ok_0.1;
                                    lemma_after_after(
                                        at,
                                        1 + used,
                                        inner_fields_reading(
                                            now.skip(1 + used),
                                            a,
                                            b,
                                            Some(value@),
                                        ),
                                    );
                                    assert(now.skip(1).skip(used) =~= now.skip(1 + used));
                                    assert(now.skip(1 + used) =~= whole.skip(at + 1 + used));
                                    at = at + 1 + used;
                                }
                                c = Some(value);
                            },
                            Err(error) => {
                                return Err(error);
                            },
                        }
                    } else {
                        return Err(d.unexpected_name_error(Token::Str(name)));
                    }
                },
                other => {
                    let expected = field_or_end();
                    return Err(d.syntax_error(other, &expected));
                },
            }
        }
    }
}

/// Rebuilds a sequence of inner structs from the tokens of `d`, as
/// `vec_reading` reads it.
pub fn deserialize_inners<D: Deserializer>(d: &mut D) -> (r: Result<Vec<Inner>, Error>)
    ensures
        final(d).pending().len() <= old(d).pending().len(),
        match vec_reading(old(d).pending()) {
            Ok((items, used)) => (r matches Ok(out) && inner_views(out@) == items)
                && final(d).pending() == old(d).pending().skip(used),
            Err(failure) => fails_as::<D, Vec<Inner>>(old(d).pending(), failure, r),
        },
{
    proof {
        reveal(vec_reading);
    }
    let ghost tokens = d.pending();
    let token = match expect_token(d) {
        Ok(token) => token,
        Err(error) => {
            return Err(error);
        },
    };
    match token {
        Token::SeqStart(_) => {},
        other => {
            let expected = [TokenKind::SeqStartKind];
            assert(expected@ =~= seq![TokenKind::SeqStartKind]);
            return Err(d.syntax_error(other, &expected));
        },
    }
    let ghost mut at: int = 1;
    let ghost mut sure = true;
    let mut out: Vec<Inner> = Vec::new();
    assert(inner_views(out@) =~= Seq::empty());
    loop
        invariant
            tokens == old(d).pending(),
            d.pending().len() < tokens.len(),
            !sure ==> D::has_defaults() && vec_reading(tokens) is Err
                && vec_reading(tokens)->Err_0 is Missing,
            sure ==> 1 <= at <= tokens.len() && d.pending() == tokens.skip(at)
                && vec_reading(tokens) == after(at, inners_reading(d.pending(), inner_views(out@))),
        decreases d.pending().len(),
    {
        let ghost now = d.pending();
        let ghost sofar = inner_views(out@);
        proof {
            if sure {
                assert(now.len() > 0 ==> now[0] == tokens[at]);
                lemma_inner_reading_fits(now);
            }
        }
        let token = match expect_token(d) {
            Ok(token) => token,
            Err(error) => {
                return Err(error);
            },
        };
        if let Token::End = token {
            return Ok(out);
        }
        proof {
            assert(seq![token] + now.skip(1) =~= now);
        }
        let item = match Inner::deserialize_token(d, token) {
            Ok(item) => item,
            Err(error) => {
                proof {
                    if sure && inner_reading(now) is Err {
                        let failure = inner_reading(now)->Err_0;
                        if !(failure is Missing) || !D::has_defaults() {
                            lemma_reported_later::<D>(tokens, now, at, failure, error);
                        }
                    }
                }
                return Err(error);
            },
        };
        proof {
            if sure && inner_reading(now) is Ok {
                let used = inner_reading(now)->Ok_0.1;
                assert(now.skip(1).skip(used - 1) =~= now.skip(used));
                assert(now.skip(used) =~= tokens.skip(at + used));
                assert(inner_views(out@.push(item)) =~= sofar.push(item@));
                lemma_after_after(at, used, inners_reading(now.skip(used), sofar.push(item@)));
                at = at + used;
            } else {
                sure = false;
            }
        }
        out.push(item);
    }
}

impl Outer {
    /// Rebuilds an outer struct from the tokens of `d`, as `outer_reading`
    /// reads it. A field that never comes is asked of `d`.
    pub fn deserialize<D: Deserializer>(d: &mut D) -> (r: Result<Outer, Error>)
        ensures
            final(d).pending().len() <= old(d).pending().len(),
            match outer_reading(old(d).pending()) {
                Ok((items, used)) => (r matches Ok(out) && out@ == items) && final(d).pending()
                    == old(d).pending().skip(used),
                Err(failure) => fails_as::<D, Outer>(old(d).pending(), failure, r),
            },
    {
        let ghost whole = d.pending();
        let token = match expect_token(d) {
            Ok(token) => token,
            Err(error) => {
                return Err(error);
            },
        };
        match token {
            Token::StructStart(name, count) => {
                if !same_text(name, "Outer") {
                    return Err(d.unexpected_name_error(Token::StructStart(name, count)));
                }
            },
            other => {
                let expected = struct_start();
                return Err(d.syntax_error(other, &expected));
            },
        }
        let ghost mut at: int = 1;
        let ghost mut sure = true;
        let mut inner: Option<Vec<Inner>> = None;
        loop
            invariant
                whole == old(d).pending(),
                d.pending().len() < whole.len(),
                !sure ==> D::has_defaults() && outer_reading(whole) is Err
                    && outer_reading(whole)->Err_0 is Missing,
                sure ==> 1 <= at <= whole.len() && d.pending() == whole.skip(at)
                    && outer_reading(whole)
                        == after(at, outer_fields_reading(d.pending(), vec_view(inner))),
            decreases d.pending().len(),
        {
            let ghost now = d.pending();
            proof {
                if sure {
                    assert(now.len() > 0 ==> now[0] == whole[at]);
                    assert(now.len() > 0 ==> now.skip(1) =~= whole.skip(at + 1));
                    lemma_vec_reading_fits(now.skip(1));
                }
            }
            let token = match expect_token(d) {
                Ok(token) => token,
                Err(error) => {
                    return Err(error);
                },
            };
            match token {
                Token::End => {
                    let inner = match inner {
                        Some(inner) => inner,
                        None => match d.missing_field::<Vec<Inner>>("inner") {
                            Ok(inner) => inner,
                            Err(error) => {
                                assert(seq!["inner"@][0] == "inner"@);
                                return Err(error);
                            },
                        },
                    };
                    return Ok(Outer { inner });
                },
                Token::Str(name) => {
                    if same_text(name, "inner") {
                        match deserialize_inners(d) {
                            Ok(value) => {
                                proof {
                                    if sure && vec_reading(now.skip(1)) is Ok {
                                        let used = vec_reading(now.skip(1))->Ok_0.1;
                                        lemma_after_after(
                                            at,
                                            1 + used,
                                            outer_fields_reading(
                                                now.skip(1 + used),
                                                Some(inner_views(value@)),
                                            ),
                                        );
                                        assert(now.skip(1).skip(used) =~= now.skip(1 + used));
                                        assert(now.skip(1 + used) =~= whole.skip(at + 1 + used));
                                        at = at + 1 + used;
                                    } else {
                                        sure = false;
                                    }
                                }
                                inner = Some(value);
                            },
                            Err(error) => {
                                proof {
                                    if sure && vec_reading(now.skip(1)) is Err {
                                        let failure = vec_reading(now.skip(1))->Err_0;
                                        if !(failure is Missing) || !D::has_defaults() {
                                            lemma_reported_later::<D>(
                                                whole,
                                                now.skip(1),
                                                at + 1,
                                                failure,
                                                error,
                                            );
                                        }
                                    }
                                }
                                return Err(error);
                            },
                        }
                    } else {
                        return Err(d.unexpected_name_error(Token::Str(name)));
                    }
                },
                other => {
                    let expected = field_or_end();
                    return Err(d.syntax_error(other, &expected));
                },
            }
        }
    }
}

} // verus!
