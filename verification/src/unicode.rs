use vstd::prelude::*;
use crate::order::lex_le;

verus! {

/// The characters of a text, in order.
pub(crate) fn chars_of(text: &str) -> (chars: Vec<char>)
    ensures
        chars@ == text@,
{
    broadcast use vstd::string::group_string_axioms;

    let mut chars: Vec<char> = Vec::new();
    for c in it: text.chars()
        invariant
            it.seq() == text@,
            chars@.len() == it.index(),
            forall|j: int| 0 <= j < chars@.len() ==> chars@[j] == it.seq()[j],
    {
        chars.push(c);
    }
    assert(chars@ =~= text@);
    chars
}

/// `String::from_iter` on characters: the text made of them, in order.
#[verifier::external_body]
pub(crate) fn text_of(chars: &Vec<char>) -> (text: String)
    ensures
        text@ == chars@,
{
    chars.iter().collect()
}

/// Whether a character is white space as Unicode defines it: one of the 25
/// characters with the property `White_Space`.
pub open spec fn is_whitespace(c: char) -> bool {
    let code = c as u32;
    ||| 0x09 <= code <= 0x0d
    ||| code == 0x20
    ||| code == 0x85
    ||| code == 0xa0
    ||| code == 0x1680
    ||| 0x2000 <= code <= 0x200a
    ||| code == 0x2028
    ||| code == 0x2029
    ||| code == 0x202f
    ||| code == 0x205f
    ||| code == 0x3000
}

/// Whether a character is white space as Unicode defines it.
pub fn char_is_whitespace(c: char) -> (r: bool)
    ensures
        r == is_whitespace(c),
{
    let code: u32 = c as u32;
    (0x09 <= code && code <= 0x0d) || code == 0x20 || code == 0x85 || code == 0xa0 || code == 0x1680
        || (0x2000 <= code && code <= 0x200a) || code == 0x2028 || code == 0x2029 || code == 0x202f
        || code == 0x205f || code == 0x3000
}

/// Whether `char::is_alphabetic` holds of a character.
pub uninterp spec fn is_alphabetic(c: char) -> bool;

/// Whether `char::is_uppercase` holds of a character.
pub uninterp spec fn is_uppercase(c: char) -> bool;

/// What `str::to_lowercase` makes of a text.
pub uninterp spec fn lowercased(text: Seq<char>) -> Seq<char>;

/// `char::is_alphabetic`: whether Unicode counts the character as alphabetic.
#[verifier::external_body]
pub(crate) fn char_is_alphabetic(c: char) -> (r: bool)
    ensures
        r == is_alphabetic(c),
{
    c.is_alphabetic()
}

/// `char::is_uppercase`: whether Unicode counts the character as uppercase.
#[verifier::external_body]
pub(crate) fn char_is_uppercase(c: char) -> (r: bool)
    ensures
        r == is_uppercase(c),
{
    c.is_uppercase()
}

/// `str::to_lowercase`: the text in lowercase, as Unicode defines it.
#[verifier::external_body]
pub(crate) fn lowercase(text: &str) -> (lower: String)
    ensures
        lower@ == lowercased(text@),
{
    text.to_lowercase()
}

/// The first character of `text`, if it has one.
pub(crate) fn first_char(text: &str) -> (first: Option<char>)
    ensures
        first is Some <==> text@.len() > 0,
        first is Some ==> first->0 == text@[0],
{
    if text.is_empty() {
        None
    } else {
        Some(text.get_char(0))
    }
}

/// Whether two texts hold the same characters.
pub(crate) fn same_text(a: &str, b: &str) -> (same: bool)
    ensures
        same == (a@ == b@),
{
    let x = chars_of(a);
    let y = chars_of(b);
    if x.len() != y.len() {
        return false;
    }
    let mut i: usize = 0;
    while i < x.len()
        invariant
            0 <= i <= x.len(),
            x.len() == y.len(),
            x@ == a@,
            y@ == b@,
            forall|k: int| 0 <= k < i ==> x@[k] == y@[k],
        decreases x.len() - i,
    {
        if x[i] != y[i] {
            return false;
        }
        i = i + 1;
    }
    proof {
        assert(a@ =~= b@);
    }
    true
}

/// The code points of a text.
pub open spec fn code_points(text: Seq<char>) -> Seq<int> {
    text.map_values(|c: char| (c as u32) as int)
}

/// Whether `a` comes before `b` in the order of texts, or is the same text:
/// texts are ordered as the sequences of their code points are, in dictionary
/// order.
pub(crate) fn text_le(a: &str, b: &str) -> (le: bool)
    ensures
        le == lex_le(code_points(a@), code_points(b@)),
{
    let x = chars_of(a);
    let y = chars_of(b);
    let ghost p = code_points(a@);
    let ghost q = code_points(b@);
    let mut i: usize = 0;
    while i < x.len() && i < y.len()
        invariant
            0 <= i <= x.len(),
            i <= y.len(),
            x@ == a@,
            y@ == b@,
            p == code_points(a@),
            q == code_points(b@),
            forall|k: int| 0 <= k < i ==> p[k] == q[k],
        decreases x.len() - i,
    {
        let c: u32 = x[i] as u32;
        let d: u32 = y[i] as u32;
        proof {
            assert(p[i as int] == c);
            assert(q[i as int] == d);
        }
        if c != d {
            proof {
                crate::order::lemma_lex_le_skip(p, q, i as int);
                assert(p.skip(i as int)[0] == p[i as int]);
                assert(q.skip(i as int)[0] == q[i as int]);
            }
            return c < d;
        }
        i = i + 1;
    }
    proof {
        crate::order::lemma_lex_le_skip(p, q, i as int);
    }
    i == x.len()
}

} // verus!
