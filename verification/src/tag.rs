use vstd::prelude::*;
use crate::order::{lex_le, lemma_lex_le_total, lemma_lex_le_reflexive, lemma_lex_le_transitive, lemma_lex_le_antisymmetric};
use crate::unicode::{char_is_alphabetic, char_is_uppercase, code_points, first_char, is_alphabetic, is_uppercase, lowercase, lowercased, same_text, text_le};

verus! {

/// A category of snippets: the position of its name in the table of tags, so
/// that tags are ordered as their names are.
#[derive(Clone, Copy, Debug, PartialEq, Eq, Hash, Structural)]
pub struct SnipTag {
    pub code: usize,
}

/// A name that a tag may have: its first character is an uppercase letter.
pub open spec fn is_tag_name(name: Seq<char>) -> bool {
    name.len() > 0 && is_alphabetic(name[0]) && is_uppercase(name[0])
}

/// Whether `a` comes before `b` in the order of texts and is another text.
pub open spec fn text_lt(a: Seq<char>, b: Seq<char>) -> bool {
    lex_le(code_points(a), code_points(b)) && a != b
}

/// Names in strictly ascending order.
pub open spec fn ascending(names: Seq<Seq<char>>) -> bool {
    forall|i: int, j: int| 0 <= i < j < names.len() ==> text_lt(#[trigger] names[i], #[trigger] names[j])
}

/// The texts of a list of strings.
pub open spec fn texts(names: Seq<String>) -> Seq<Seq<char>> {
    names.map_values(|name: String| name@)
}

/// The first tag at or after position `from` whose name in lowercase is
/// `lower`.
pub open spec fn tag_from(names: Seq<Seq<char>>, lower: Seq<char>, from: int) -> Option<SnipTag>
    decreases names.len() - from,
{
    if from < 0 || from >= names.len() {
        None
    } else if lowercased(names[from]) == lower {
        Some(SnipTag { code: from as usize })
    } else {
        tag_from(names, lower, from + 1)
    }
}

/// The first tag whose name in lowercase is `lower`.
pub open spec fn tag_named(names: Seq<Seq<char>>, lower: Seq<char>) -> Option<SnipTag> {
    tag_from(names, lower, 0)
}

/// A text is known by its code points.
pub proof fn lemma_code_points_injective(a: Seq<char>, b: Seq<char>)
    requires
        code_points(a) == code_points(b),
    ensures
        a == b,
{
    assert(a.len() == code_points(a).len());
    assert(b.len() == code_points(b).len());
    assert forall|i: int| 0 <= i < a.len() implies a[i] == b[i] by {
        assert(code_points(a)[i] == a[i] as u32);
        assert(code_points(b)[i] == b[i] as u32);
        vstd::utf8::char_u32_cast(a[i], a[i] as u32);
        vstd::utf8::char_u32_cast(b[i], b[i] as u32);
    }
    assert(a =~= b);
}

/// Whether a text may be the name of a tag.
pub fn valid_tag_name(name: &str) -> (valid: bool)
    ensures
        valid == is_tag_name(name@),
{
    match first_char(name) {
        Some(c) => char_is_alphabetic(c) && char_is_uppercase(c),
        None => false,
    }
}

/// The tags that snippets can have, by name, in ascending order of name.
#[derive(Debug)]
pub struct TagTable {
    names: Vec<String>,
}

impl TagTable {
    #[verifier::type_invariant]
    spec fn well_formed(self) -> bool {
        &&& ascending(texts(self.names@))
        &&& forall|i: int| 0 <= i < self.names@.len() ==> is_tag_name(#[trigger] self.names@[i]@)
    }

    /// The names of the tags: the name of the tag with code `i` stands at `i`.
    pub closed spec fn names(&self) -> Seq<Seq<char>> {
        texts(self.names@)
    }

    /// Makes the table of the tags with the given names. Each name has to begin
    /// with an uppercase letter; a name that is given twice is taken once.
    pub fn new(names: &Vec<String>) -> (r: Option<TagTable>)
        ensures
            r is Some <==> forall|i: int| 0 <= i < names@.len() ==> is_tag_name(#[trigger] names@[i]@),
            r is Some ==> {
                &&& ascending(r->0.names())
                &&& forall|name: Seq<char>| r->0.names().contains(name) <==> texts(names@).contains(name)
            },
    {
        let mut sorted: Vec<String> = Vec::new();
        let mut i: usize = 0;
        while i < names.len()
            invariant
                0 <= i <= names.len(),
                ascending(texts(sorted@)),
                forall|k: int| 0 <= k < i ==> is_tag_name(#[trigger] names@[k]@),
                forall|k: int| 0 <= k < sorted@.len() ==> is_tag_name(#[trigger] sorted@[k]@),
                forall|name: Seq<char>| texts(sorted@).contains(name) <==> texts(names@).take(i as int).contains(name),
            decreases names.len() - i,
        {
            let name = &names[i];
            if !valid_tag_name(name.as_str()) {
                return None;
            }
            let ghost before = texts(sorted@);
            let ghost given = texts(names@).take(i as int);
            let mut j: usize = 0;
            while j < sorted.len() && !text_le(name.as_str(), sorted[j].as_str())
                invariant
                    0 <= j <= sorted.len(),
                    forall|k: int| 0 <= k < j ==> text_lt(#[trigger] texts(sorted@)[k], name@),
                decreases sorted.len() - j,
            {
                proof {
                    lemma_lex_le_total(code_points(name@), code_points(sorted@[j as int]@));
                    lemma_lex_le_reflexive(code_points(name@));
                    assert(texts(sorted@)[j as int] == sorted@[j as int]@);
                }
                j = j + 1;
            }
            let known = j < sorted.len() && same_text(sorted[j].as_str(), name.as_str());
            if !known {
                sorted.insert(j, name.clone());
                proof {
                    let after = texts(sorted@);
                    assert(after =~= before.insert(j as int, name@));
                    assert forall|a: int, b: int| 0 <= a < b < after.len() implies text_lt(
                        #[trigger] after[a],
                        #[trigger] after[b],
                    ) by {
                        if b < j {
                            assert(text_lt(before[a], before[b]));
                        } else if b == j {
                            assert(text_lt(before[a], name@));
                        } else if a == j {
                            assert(lex_le(code_points(name@), code_points(before[j as int])));
                            if b - 1 > j {
                                assert(text_lt(before[j as int], before[b - 1]));
                                lemma_lex_le_transitive(
                                    code_points(name@),
                                    code_points(before[j as int]),
                                    code_points(before[b - 1]),
                                );
                                if name@ == before[b - 1] {
                                    lemma_lex_le_antisymmetric(
                                        code_points(before[j as int]),
                                        code_points(name@),
                                    );
                                    lemma_code_points_injective(before[j as int], name@);
                                }
                            }
                        } else if a < j {
                            assert(text_lt(before[a], before[b - 1]));
                        } else {
                            assert(text_lt(before[a - 1], before[b - 1]));
                        }
                    }
                    assert forall|k: int| 0 <= k < sorted@.len() implies is_tag_name(
                        #[trigger] sorted@[k]@,
                    ) by {
                        if k < j {
                            assert(before[k] == sorted@[k]@);
                        } else if k > j {
                            assert(before[k - 1] == sorted@[k]@);
                        }
                    }
                    assert forall|x: Seq<char>| after.contains(x) <==> texts(names@).take(
                        i + 1,
                    ).contains(x) by {
                        lemma_insert_contains(before, j as int, name@, x);
                        lemma_take_contains(texts(names@), i as int, x);
                    }
                }
            } else {
                proof {
                    assert(before[j as int] == name@);
                    assert forall|x: Seq<char>| before.contains(x) <==> texts(names@).take(
                        i + 1,
                    ).contains(x) by {
                        lemma_take_contains(texts(names@), i as int, x);
                    }
                }
            }
            i = i + 1;
        }
        proof {
            assert(texts(names@).take(i as int) =~= texts(names@));
        }
        Some(TagTable { names: sorted })
    }

    /// The number of tags.
    pub fn len(&self) -> (n: usize)
        ensures
            n == self.names().len(),
    {
        self.names.len()
    }

    /// The name of a tag, if the table has the tag.
    pub fn name_of(&self, tag: SnipTag) -> (name: Option<String>)
        ensures
            name is Some <==> tag.code < self.names().len(),
            name is Some ==> name->0@ == self.names()[tag.code as int],
    {
        if tag.code < self.names.len() {
            Some(self.names[tag.code].clone())
        } else {
            None
        }
    }

    /// The tag whose name in lowercase is `lower`: the first one, where several
    /// names differ in case only.
    pub fn string_to_tag(&self, lower: &str) -> (tag: Option<SnipTag>)
        ensures
            tag == tag_named(self.names(), lower@),
            tag is Some ==> tag->0.code < self.names().len(),
    {
        let mut i: usize = 0;
        while i < self.names.len()
            invariant
                0 <= i <= self.names.len(),
                tag_named(self.names(), lower@) == tag_from(self.names(), lower@, i as int),
            decreases self.names.len() - i,
        {
            let candidate = lowercase(self.names[i].as_str());
            proof {
                assert(texts(self.names@)[i as int] == self.names@[i as int]@);
            }
            if same_text(candidate.as_str(), lower) {
                return Some(SnipTag { code: i });
            }
            i = i + 1;
        }
        None
    }

    /// All tags of the table, in ascending order.
    pub fn all_tags(&self) -> (tags: Vec<SnipTag>)
        ensures
            tags@.len() == self.names().len(),
            forall|i: int| 0 <= i < tags@.len() ==> (#[trigger] tags@[i]).code == i,
    {
        let mut tags: Vec<SnipTag> = Vec::new();
        let mut i: usize = 0;
        while i < self.names.len()
            invariant
                0 <= i <= self.names.len(),
                tags@.len() == i,
                forall|k: int| 0 <= k < i ==> (#[trigger] tags@[k]).code == k,
            decreases self.names.len() - i,
        {
            tags.push(SnipTag { code: i });
            i = i + 1;
        }
        tags
    }
}

/// What a sequence holds after an insertion: what it held, and what was put in.
pub proof fn lemma_insert_contains<A>(s: Seq<A>, at: int, value: A, x: A)
    requires
        0 <= at <= s.len(),
    ensures
        s.insert(at, value).contains(x) <==> (s.contains(x) || x == value),
{
    let t = s.insert(at, value);
    if s.contains(x) {
        let k = choose|k: int| 0 <= k < s.len() && s[k] == x;
        if k < at {
            assert(t[k] == x);
        } else {
            assert(t[k + 1] == x);
        }
    }
    if x == value {
        assert(t[at] == x);
    }
    if t.contains(x) {
        let k = choose|k: int| 0 <= k < t.len() && t[k] == x;
        if k < at {
            assert(s[k] == x);
        } else if k > at {
            assert(s[k - 1] == x);
        }
    }
}

/// What one more place of a sequence holds: what the places before it held,
/// and its own value.
pub proof fn lemma_take_contains<A>(s: Seq<A>, n: int, x: A)
    requires
        0 <= n < s.len(),
    ensures
        s.take(n + 1).contains(x) <==> (s.take(n).contains(x) || x == s[n]),
{
    let t = s.take(n + 1);
    if s.take(n).contains(x) {
        let k = choose|k: int| 0 <= k < s.take(n).len() && s.take(n)[k] == x;
        assert(t[k] == x);
    }
    if x == s[n] {
        assert(t[n] == x);
    }
    if t.contains(x) {
        let k = choose|k: int| 0 <= k < t.len() && t[k] == x;
        if k < n {
            assert(s.take(n)[k] == x);
        }
    }
}

} // verus!
