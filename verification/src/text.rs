//! Comparison of text by the code points of its characters.

use vstd::prelude::*;
use vstd::std_specs::iter::IteratorSpec;
use vstd::string::*;

verus! {

broadcast use vstd::string::group_string_axioms;

/// How one text stands to another in lexicographic order.
#[derive(Clone, Copy, Debug, PartialEq, Eq, Structural)]
pub enum TextOrder {
    /// The first text sorts strictly before the second.
    Before,
    /// Both texts hold the same characters.
    Same,
    /// The first text sorts strictly after the second.
    After,
}

/// Lexicographic order of two character sequences, character by character
/// and by code point; a proper prefix sorts before the longer text.
pub open spec fn text_order(a: Seq<char>, b: Seq<char>) -> TextOrder
    decreases a.len(),
{
    if a.len() == 0 {
        if b.len() == 0 {
            TextOrder::Same
        } else {
            TextOrder::Before
        }
    } else if b.len() == 0 {
        TextOrder::After
    } else if (a[0] as u32) < (b[0] as u32) {
        TextOrder::Before
    } else if (a[0] as u32) > (b[0] as u32) {
        TextOrder::After
    } else {
        text_order(a.drop_first(), b.drop_first())
    }
}

/// Compares two strings in lexicographic order of their code points.
pub fn compare_text(a: &str, b: &str) -> (r: TextOrder)
    ensures
        r == text_order(a@, b@),
{
    let mut left = a.chars();
    let mut right = b.chars();
    loop
        invariant
            left.obeys_prophetic_iter_laws(),
            right.obeys_prophetic_iter_laws(),
            left.decrease() is Some,
            text_order(a@, b@) == text_order(left.remaining(), right.remaining()),
        decreases left.decrease()->0,
    {
        let x = left.next();
        let y = right.next();
        match (x, y) {
            (None, None) => {
                return TextOrder::Same;
            },
            (None, Some(_)) => {
                return TextOrder::Before;
            },
            (Some(_), None) => {
                return TextOrder::After;
            },
            (Some(p), Some(q)) => {
                if (p as u32) < (q as u32) {
                    return TextOrder::Before;
                }
                if (p as u32) > (q as u32) {
                    return TextOrder::After;
                }
            },
        }
    }
}

/// Tells whether two strings hold the same characters.
pub fn same_text(a: &str, b: &str) -> (r: bool)
    ensures
        r == (a@ == b@),
{
    proof {
        lemma_same_iff_equal(a@, b@);
    }
    match compare_text(a, b) {
        TextOrder::Same => true,
        _ => false,
    }
}

/// Characters with the same code point are the same character.
proof fn lemma_code_point_names_char(p: char, q: char)
    requires
        p as u32 == q as u32,
    ensures
        p == q,
{
    vstd::utf8::char_u32_cast(p, p as u32);
    vstd::utf8::char_u32_cast(q, q as u32);
}

/// Two texts compare as `Same` exactly when they are equal.
pub proof fn lemma_same_iff_equal(a: Seq<char>, b: Seq<char>)
    ensures
        text_order(a, b) == TextOrder::Same <==> a == b,
    decreases a.len(),
{
    if a.len() > 0 && b.len() > 0 {
        lemma_same_iff_equal(a.drop_first(), b.drop_first());
        if text_order(a, b) == TextOrder::Same {
            lemma_code_point_names_char(a[0], b[0]);
            assert(a =~= seq![a[0]] + a.drop_first());
            assert(b =~= seq![b[0]] + b.drop_first());
        }
        if a == b {
            assert(a.drop_first() == b.drop_first());
        }
    } else if a.len() == 0 && b.len() == 0 {
        assert(a =~= b);
    }
}

/// Swapping the two texts swaps `Before` and `After`.
pub proof fn lemma_order_flips(a: Seq<char>, b: Seq<char>)
    ensures
        text_order(a, b) == TextOrder::Before <==> text_order(b, a) == TextOrder::After,
        text_order(a, b) == TextOrder::After <==> text_order(b, a) == TextOrder::Before,
        text_order(a, b) == TextOrder::Same <==> text_order(b, a) == TextOrder::Same,
    decreases a.len(),
{
    if a.len() > 0 && b.len() > 0 {
        lemma_order_flips(a.drop_first(), b.drop_first());
    }
}

/// `Before` is transitive.
pub proof fn lemma_before_is_transitive(a: Seq<char>, b: Seq<char>, c: Seq<char>)
    requires
        text_order(a, b) == TextOrder::Before,
        text_order(b, c) == TextOrder::Before,
    ensures
        text_order(a, c) == TextOrder::Before,
    decreases a.len(),
{
    if a.len() > 0 && b.len() > 0 && c.len() > 0 {
        if (a[0] as u32) == (b[0] as u32) && (b[0] as u32) == (c[0] as u32) {
            lemma_before_is_transitive(a.drop_first(), b.drop_first(), c.drop_first());
        }
    }
}

/// `name` stands in `names` at `at`, and nowhere before.
pub open spec fn is_first_match(names: Seq<&str>, name: Seq<char>, at: int) -> bool {
    &&& 0 <= at < names.len()
    &&& names[at]@ == name
    &&& forall|j: int| 0 <= j < at ==> (#[trigger] names[j])@ != name
}

/// `name` stands nowhere in `names`.
pub open spec fn no_match(names: Seq<&str>, name: Seq<char>) -> bool {
    forall|j: int| 0 <= j < names.len() ==> (#[trigger] names[j])@ != name
}

/// The first place at which `name` stands in `names`.
pub fn find_name(names: &[&str], name: &str) -> (found: Option<usize>)
    ensures
        match found {
            Some(at) => is_first_match(names@, name@, at as int),
            None => no_match(names@, name@),
        },
{
    let mut at: usize = 0;
    while at < names.len()
        invariant
            at <= names@.len(),
            forall|j: int| 0 <= j < at ==> (#[trigger] names@[j])@ != name@,
        decreases names@.len() - at,
    {
        if same_text(names[at], name) {
            return Some(at);
        }
        at += 1;
    }
    None
}

} // verus!
