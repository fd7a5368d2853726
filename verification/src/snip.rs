use vstd::prelude::*;
use crate::error::{MyError, MyErrorView};
use crate::model::Model;
use crate::order::{lex_le, lemma_lex_le_skip, lemma_lex_le_total, lemma_lex_le_transitive};
use crate::parse_paras::{ModelInfo, QuerySpec};
use crate::rank::{Similarity, Scored, rank, ranked, lemma_ranked_members, lemma_ranked_len};
use crate::tag::{SnipTag, lemma_insert_contains, lemma_take_contains};
use crate::text::{trim, remove_char, split_chars, split_text, trimmed, without, is_infix, contains_chars};
use crate::unicode::{chars_of, code_points, lowercase, lowercased, text_le, text_of};

verus! {

/// The width to which the lines of a description are cut.
pub const DESCRIPTION_WIDTH: usize = 20;

/// A precomputed embedding of a description: the model that made it, and the
/// bit patterns of the vector's 32-bit floats.
#[derive(Clone, Debug, PartialEq, Eq)]
pub struct Embedding {
    pub model: Model,
    pub bits: Vec<u32>,
}

/// Mathematical value of a snippet.
pub ghost struct SnippetView {
    /// The codes of the tags, in ascending order.
    pub tags: Seq<int>,
    pub discription: Seq<char>,
    pub content: Seq<char>,
    /// The precomputed embeddings, each with its model.
    pub embedding: Seq<(Model, Seq<u32>)>,
}

/// One snippet: its tags, its description, what it holds, and the embeddings
/// of the description that were computed ahead.
#[derive(Debug, PartialEq, Eq)]
pub struct SingleSnippet {
    tags: Vec<SnipTag>,
    discription: String,
    embedding: Vec<Embedding>,
    content: String,
}

/// The codes of a list of tags.
pub open spec fn codes(tags: Seq<SnipTag>) -> Seq<int> {
    tags.map_values(|t: SnipTag| t.code as int)
}

/// Integers in strictly ascending order.
pub open spec fn strictly_ascending(s: Seq<int>) -> bool {
    forall|i: int, j: int| 0 <= i < j < s.len() ==> s[i] < s[j]
}

/// The values of a list of embeddings.
pub open spec fn embeddings(list: Seq<Embedding>) -> Seq<(Model, Seq<u32>)> {
    list.map_values(|e: Embedding| (e.model, e.bits@))
}

/// Whether no model has two embeddings in a list.
pub open spec fn distinct_models(list: Seq<(Model, Seq<u32>)>) -> bool {
    forall|i: int, j: int| 0 <= i < j < list.len() ==> list[i].0 != list[j].0
}

/// Whether no model has two embeddings in a list.
pub fn models_differ(list: &Vec<Embedding>) -> (r: bool)
    ensures
        r == distinct_models(embeddings(list@)),
{
    let mut j: usize = 0;
    while j < list.len()
        invariant
            0 <= j <= list.len(),
            forall|a: int, b: int| 0 <= a < b < j ==> embeddings(list@)[a].0 != embeddings(list@)[b].0,
        decreases list.len() - j,
    {
        let mut i: usize = 0;
        while i < j
            invariant
                0 <= i <= j < list.len(),
                forall|a: int| 0 <= a < i ==> embeddings(list@)[a].0 != embeddings(list@)[j as int].0,
            decreases j - i,
        {
            if list[i].model == list[j].model {
                proof {
                    assert(embeddings(list@)[i as int].0 == embeddings(list@)[j as int].0);
                }
                return false;
            }
            i = i + 1;
        }
        j = j + 1;
    }
    true
}

/// A description as the store holds it: without the white space around it,
/// without carriage returns, and with its lines cut to the width of a
/// description.
pub open spec fn normalized(text: Seq<char>) -> Seq<char> {
    split_text(without(trimmed(text), '\r'), DESCRIPTION_WIDTH as int)
}

/// Brings a description into the form in which the store holds it.
pub fn normalize_discription(text: &str) -> (r: String)
    ensures
        r@ == normalized(text@),
{
    let chars = chars_of(text);
    let inner = trim(&chars);
    let plain = remove_char(&inner, '\r');
    let short = split_chars(&plain, DESCRIPTION_WIDTH);
    text_of(&short)
}

/// Whether the tags of `a` come before those of `b` in dictionary order, or are
/// the same.
pub fn tags_le(a: &Vec<SnipTag>, b: &Vec<SnipTag>) -> (r: bool)
    ensures
        r == lex_le(codes(a@), codes(b@)),
{
    let mut i: usize = 0;
    while i < a.len() && i < b.len()
        invariant
            0 <= i <= a.len(),
            i <= b.len(),
            forall|k: int| 0 <= k < i ==> codes(a@)[k] == codes(b@)[k],
        decreases a.len() - i,
    {
        if a[i].code != b[i].code {
            proof {
                lemma_lex_le_skip(codes(a@), codes(b@), i as int);
                assert(codes(a@).skip(i as int)[0] == a@[i as int].code);
                assert(codes(b@).skip(i as int)[0] == b@[i as int].code);
            }
            return a[i].code < b[i].code;
        }
        i = i + 1;
    }
    proof {
        lemma_lex_le_skip(codes(a@), codes(b@), i as int);
    }
    i == a.len()
}

/// The order of the store: by the tags in dictionary order, and among snippets
/// with the same tags by the description.
pub open spec fn key_le(a: SnippetView, b: SnippetView) -> bool {
    lex_le(a.tags, b.tags) && (lex_le(b.tags, a.tags) ==> lex_le(
        code_points(a.discription),
        code_points(b.discription),
    ))
}

/// Of two snippets one comes first in the order of the store.
pub proof fn lemma_key_le_total(a: SnippetView, b: SnippetView)
    ensures
        key_le(a, b) || key_le(b, a),
{
    lemma_lex_le_total(a.tags, b.tags);
    lemma_lex_le_total(code_points(a.discription), code_points(b.discription));
}

/// The order of the store is transitive.
pub proof fn lemma_key_le_transitive(a: SnippetView, b: SnippetView, c: SnippetView)
    requires
        key_le(a, b),
        key_le(b, c),
    ensures
        key_le(a, c),
{
    lemma_lex_le_transitive(a.tags, b.tags, c.tags);
    if lex_le(c.tags, a.tags) {
        lemma_lex_le_transitive(c.tags, a.tags, b.tags);
        lemma_lex_le_transitive(b.tags, c.tags, a.tags);
        lemma_lex_le_transitive(
            code_points(a.discription),
            code_points(b.discription),
            code_points(c.discription),
        );
    }
}

/// The list `s` with `x` put in before the first snippet that does not come
/// before it.
pub open spec fn place(x: SingleSnippet, s: Seq<SingleSnippet>) -> Seq<SingleSnippet>
    decreases s.len(),
{
    if s.len() == 0 {
        seq![x]
    } else if key_le(x@, s[0]@) {
        seq![x] + s
    } else {
        seq![s[0]] + place(x, s.drop_first())
    }
}

/// The snippets of `s` in the order of the store; snippets that the order does
/// not tell apart stay in the order in which they were given.
pub open spec fn in_order(s: Seq<SingleSnippet>) -> Seq<SingleSnippet>
    decreases s.len(),
{
    if s.len() == 0 {
        s
    } else {
        place(s[0], in_order(s.drop_first()))
    }
}

/// Whether a list of snippets is in the order of the store.
pub open spec fn is_ordered(s: Seq<SingleSnippet>) -> bool {
    forall|i: int, j: int| 0 <= i < j < s.len() ==> key_le(#[trigger] s[i]@, #[trigger] s[j]@)
}

/// Where `x` is put: at the first position whose snippet does not come before it.
pub proof fn lemma_place_at(x: SingleSnippet, s: Seq<SingleSnippet>, j: int)
    requires
        0 <= j <= s.len(),
        forall|k: int| 0 <= k < j ==> !key_le(x@, #[trigger] s[k]@),
        j < s.len() ==> key_le(x@, s[j]@),
    ensures
        place(x, s) == s.insert(j, x),
    decreases j,
{
    if j == 0 {
        assert(seq![x] + s =~= s.insert(0, x));
        if s.len() == 0 {
            assert(seq![x] =~= s.insert(0, x));
        }
    } else {
        assert(!key_le(x@, s[0]@));
        let rest = s.drop_first();
        assert forall|k: int| 0 <= k < j - 1 implies !key_le(x@, #[trigger] rest[k]@) by {
            assert(rest[k] == s[k + 1]);
        }
        lemma_place_at(x, rest, j - 1);
        assert(seq![s[0]] + rest.insert(j - 1, x) =~= s.insert(j, x));
    }
}

impl View for SingleSnippet {
    type V = SnippetView;

    closed spec fn view(&self) -> SnippetView {
        SnippetView {
            tags: codes(self.tags@),
            discription: self.discription@,
            content: self.content@,
            embedding: embeddings(self.embedding@),
        }
    }
}

impl SingleSnippet {
    #[verifier::type_invariant]
    spec fn well_formed(self) -> bool {
        &&& strictly_ascending(codes(self.tags@))
        &&& self.tags@.len() > 0
        &&& distinct_models(embeddings(self.embedding@))
    }

    /// Makes a snippet. It has to have a tag, and no more than one embedding
    /// for a model; a tag that is given twice is taken once, and the
    /// description is brought into the form of the store.
    pub fn new(
        tags: &Vec<SnipTag>,
        discription: &str,
        content: &str,
        embedding: Vec<Embedding>,
    ) -> (r: Option<SingleSnippet>)
        ensures
            r is Some <==> tags@.len() > 0 && distinct_models(embeddings(embedding@)),
            r is Some ==> {
                &&& r->0@.tags.len() > 0
                &&& strictly_ascending(r->0@.tags)
                &&& forall|c: int| r->0@.tags.contains(c) <==> codes(tags@).contains(c)
                &&& r->0@.discription == normalized(discription@)
                &&& r->0@.content == content@
                &&& r->0@.embedding == embeddings(embedding@)
            },
    {
        if tags.len() == 0 || !models_differ(&embedding) {
            return None;
        }
        let mut sorted: Vec<SnipTag> = Vec::new();
        let mut i: usize = 0;
        while i < tags.len()
            invariant
                0 <= i <= tags.len(),
                strictly_ascending(codes(sorted@)),
                i > 0 ==> sorted@.len() > 0,
                forall|c: int| codes(sorted@).contains(c) <==> codes(tags@).take(i as int).contains(c),
            decreases tags.len() - i,
        {
            let tag = tags[i];
            let ghost before = codes(sorted@);
            let mut j: usize = 0;
            while j < sorted.len() && sorted[j].code < tag.code
                invariant
                    0 <= j <= sorted.len(),
                    forall|k: int| 0 <= k < j ==> codes(sorted@)[k] < tag.code,
                decreases sorted.len() - j,
            {
                j = j + 1;
            }
            let known = j < sorted.len() && sorted[j].code == tag.code;
            if !known {
                sorted.insert(j, tag);
                proof {
                    let after = codes(sorted@);
                    assert(after =~= before.insert(j as int, tag.code as int));
                    assert forall|a: int, b: int| 0 <= a < b < after.len() implies after[a]
                        < after[b] by {
                        if b < j {
                            assert(before[a] < before[b]);
                        } else if b == j {
                            assert(before[a] < tag.code);
                        } else if a == j {
                            assert(before[j as int] == sorted@[j + 1].code);
                            if b - 1 > j {
                                assert(before[j as int] < before[b - 1]);
                            }
                        } else if a < j {
                            assert(before[a] < before[b - 1]);
                        } else {
                            assert(before[a - 1] < before[b - 1]);
                        }
                    }
                    assert forall|c: int| after.contains(c) <==> codes(tags@).take(i + 1).contains(
                        c,
                    ) by {
                        lemma_insert_contains(before, j as int, tag.code as int, c);
                        lemma_take_contains(codes(tags@), i as int, c);
                    }
                }
            } else {
                proof {
                    assert(before[j as int] == tag.code);
                    assert forall|c: int| before.contains(c) <==> codes(tags@).take(i + 1).contains(
                        c,
                    ) by {
                        lemma_take_contains(codes(tags@), i as int, c);
                    }
                }
            }
            i = i + 1;
        }
        proof {
            assert(codes(tags@).take(i as int) =~= codes(tags@));
        }
        Some(
            SingleSnippet {
                tags: sorted,
                discription: normalize_discription(discription),
                embedding,
                content: content.to_owned(),
            },
        )
    }

    /// The tags, in ascending order.
    pub fn tags(&self) -> (tags: &Vec<SnipTag>)
        ensures
            codes(tags@) == self@.tags,
            strictly_ascending(self@.tags),
            tags@.len() > 0,
    {
        proof {
            use_type_invariant(self);
        }
        &self.tags
    }

    /// The description.
    pub fn discription(&self) -> (text: &String)
        ensures
            text@ == self@.discription,
    {
        &self.discription
    }

    /// What the snippet holds.
    pub fn content(&self) -> (text: &String)
        ensures
            text@ == self@.content,
    {
        &self.content
    }

    /// The precomputed embeddings of the description, at most one for a model.
    pub fn embedding(&self) -> (list: &Vec<Embedding>)
        ensures
            embeddings(list@) == self@.embedding,
            distinct_models(self@.embedding),
    {
        proof {
            use_type_invariant(self);
        }
        &self.embedding
    }

    /// Whether this snippet comes before `other` in the order of the store, or
    /// the order does not tell them apart.
    pub fn comes_first(&self, other: &SingleSnippet) -> (r: bool)
        ensures
            r == key_le(self@, other@),
    {
        tags_le(&self.tags, &other.tags) && (!tags_le(&other.tags, &self.tags) || text_le(
            self.discription.as_str(),
            other.discription.as_str(),
        ))
    }
}


/// One result of a query: the snippet, its id, and for a semantic query its
/// similarity to what was asked.
#[derive(Clone, Debug, PartialEq, Eq)]
pub struct Hit<'a> {
    pub id: usize,
    pub snippet: &'a SingleSnippet,
    pub similarity: Option<Similarity>,
}

/// The store: all snippets, in the order that gives each its id, and the model
/// that semantic queries run on, if one was chosen.
#[derive(Debug)]
pub struct Snippets {
    data: Vec<SingleSnippet>,
    embedding: Option<ModelInfo>,
}

/// The ids below `n` that a filter keeps, in ascending order.
pub open spec fn select_ids(n: int, keep: spec_fn(int) -> bool) -> Seq<int>
    decreases n,
{
    if n <= 0 {
        Seq::empty()
    } else if keep(n - 1) {
        select_ids(n - 1, keep).push(n - 1)
    } else {
        select_ids(n - 1, keep)
    }
}

/// Whether `tags` holds every tag of `wanted`.
pub open spec fn has_all_tags(tags: Seq<int>, wanted: Seq<int>) -> bool {
    forall|k: int| 0 <= k < wanted.len() ==> tags.contains(#[trigger] wanted[k])
}

/// Whether a keyword, in lowercase, stands in the description of a snippet
/// taken as one line, or in what it holds, both in lowercase.
pub open spec fn matches_keyword(snippet: SnippetView, keyword: Seq<char>) -> bool {
    is_infix(keyword, without(lowercased(snippet.discription), '\n')) || is_infix(
        keyword,
        lowercased(snippet.content),
    )
}

/// The filter of a query: the snippets that have all of `tags`, where tags are
/// given, and that match `keyword`, where a keyword is given.
pub open spec fn query_filter(
    store: Seq<SingleSnippet>,
    tags: Option<Seq<int>>,
    keyword: Option<Seq<char>>,
) -> spec_fn(int) -> bool {
    |i: int|
        {
            &&& 0 <= i < store.len()
            &&& tags is Some ==> has_all_tags(store[i]@.tags, tags->0)
            &&& keyword is Some ==> matches_keyword(store[i]@, keyword->0)
        }
}

/// The ids of a list as integers.
pub open spec fn as_ints(ids: Seq<usize>) -> Seq<int> {
    ids.map_values(|id: usize| id as int)
}

/// The codes of the tags of a filter, where it has one.
pub open spec fn filter_codes(tags: Option<&Vec<SnipTag>>) -> Option<Seq<int>> {
    match tags {
        Some(list) => Some(codes(list@)),
        None => None,
    }
}

/// Whether `hits` are the snippets with the given ids, in that order, without
/// a similarity.
pub open spec fn plain_hits(store: Seq<SingleSnippet>, ids: Seq<int>, hits: Seq<Hit>) -> bool {
    &&& hits.len() == ids.len()
    &&& forall|k: int|
        0 <= k < hits.len() ==> {
            &&& (#[trigger] hits[k]).id == ids[k]
            &&& 0 <= ids[k] < store.len()
            &&& *hits[k].snippet == store[ids[k]]
            &&& hits[k].similarity is None
        }
}

/// What a filter selects: ids in ascending order, each of them kept by the
/// filter, and every id that the filter keeps.
pub proof fn lemma_select_ids(n: int, keep: spec_fn(int) -> bool)
    ensures
        strictly_ascending(select_ids(n, keep)),
        forall|i: int| select_ids(n, keep).contains(i) <==> (0 <= i < n && keep(i)),
    decreases n,
{
    let ids = select_ids(n, keep);
    if n <= 0 {
        assert forall|i: int| ids.contains(i) <==> (0 <= i < n && keep(i)) by {}
    } else {
        let before = select_ids(n - 1, keep);
        lemma_select_ids(n - 1, keep);
        assert forall|i: int| ids.contains(i) <==> (0 <= i < n && keep(i)) by {
            if keep(n - 1) {
                if ids.contains(i) {
                    let k = choose|k: int| 0 <= k < ids.len() && ids[k] == i;
                    if k < before.len() {
                        assert(before[k] == i);
                        assert(before.contains(i));
                    }
                }
                if 0 <= i < n && keep(i) {
                    if i == n - 1 {
                        assert(ids[before.len() as int] == i);
                    } else {
                        assert(before.contains(i));
                        let k = choose|k: int| 0 <= k < before.len() && before[k] == i;
                        assert(ids[k] == i);
                    }
                }
            }
        }
        assert forall|a: int, b: int| 0 <= a < b < ids.len() implies ids[a] < ids[b] by {
            if keep(n - 1) && b == before.len() {
                assert(before.contains(before[a]));
            }
        }
    }
}

/// Whether one list of tags holds a tag.
pub fn has_tag(tags: &Vec<SnipTag>, tag: SnipTag) -> (r: bool)
    ensures
        r == codes(tags@).contains(tag.code as int),
{
    let mut i: usize = 0;
    while i < tags.len()
        invariant
            0 <= i <= tags.len(),
            forall|k: int| 0 <= k < i ==> codes(tags@)[k] != tag.code,
        decreases tags.len() - i,
    {
        if tags[i].code == tag.code {
            assert(codes(tags@)[i as int] == tag.code);
            return true;
        }
        i = i + 1;
    }
    false
}

/// Whether one list of tags holds every tag of another.
pub fn has_tags(tags: &Vec<SnipTag>, wanted: &Vec<SnipTag>) -> (r: bool)
    ensures
        r == has_all_tags(codes(tags@), codes(wanted@)),
{
    let mut i: usize = 0;
    while i < wanted.len()
        invariant
            0 <= i <= wanted.len(),
            forall|k: int| 0 <= k < i ==> codes(tags@).contains(#[trigger] codes(wanted@)[k]),
        decreases wanted.len() - i,
    {
        if !has_tag(tags, wanted[i]) {
            assert(codes(wanted@)[i as int] == wanted@[i as int].code);
            return false;
        }
        assert(codes(wanted@)[i as int] == wanted@[i as int].code);
        i = i + 1;
    }
    true
}

impl SingleSnippet {
    /// Whether a keyword, in lowercase, stands in the description taken as one
    /// line or in what the snippet holds, whatever the case of the letters.
    pub fn has_keyword(&self, keyword: &Vec<char>) -> (r: bool)
        ensures
            r == matches_keyword(self@, keyword@),
    {
        let lower = lowercase(self.discription.as_str());
        let line = remove_char(&chars_of(lower.as_str()), '\n');
        if contains_chars(&line, keyword) {
            return true;
        }
        let held = lowercase(self.content.as_str());
        contains_chars(&chars_of(held.as_str()), keyword)
    }
}

impl View for Snippets {
    type V = Seq<SingleSnippet>;

    closed spec fn view(&self) -> Seq<SingleSnippet> {
        self.data@
    }
}

impl Snippets {
    #[verifier::type_invariant]
    spec fn well_formed(self) -> bool {
        is_ordered(self.data@)
    }

    /// The model that semantic queries run on, if one was chosen.
    pub closed spec fn spec_embedding(&self) -> Option<ModelInfo> {
        self.embedding
    }

    /// Makes the store of the given snippets: it holds them in its own order,
    /// and the position of a snippet is its id.
    pub fn new(records: Vec<SingleSnippet>, embedding: Option<ModelInfo>) -> (store: Snippets)
        ensures
            store@ == in_order(records@),
            is_ordered(store@),
            store.spec_embedding() == embedding,
    {
        let ghost all = records@;
        let mut records = records;
        let mut data: Vec<SingleSnippet> = Vec::new();
        proof {
            assert(all.skip(all.len() as int) =~= Seq::<SingleSnippet>::empty());
        }
        while records.len() > 0
            invariant
                records@ == all.take(records@.len() as int),
                records@.len() <= all.len(),
                data@ == in_order(all.skip(records@.len() as int)),
                is_ordered(data@),
            decreases records.len(),
        {
            let ghost n = records@.len() as int;
            let x = records.pop().unwrap();
            let mut j: usize = 0;
            while j < data.len() && !x.comes_first(&data[j])
                invariant
                    0 <= j <= data.len(),
                    forall|k: int| 0 <= k < j ==> !key_le(x@, #[trigger] data@[k]@),
                decreases data.len() - j,
            {
                j = j + 1;
            }
            let ghost before = data@;
            proof {
                lemma_place_at(x, before, j as int);
                assert(x == all[n - 1]);
                assert(all.skip(n - 1)[0] == x);
                assert(all.skip(n - 1).drop_first() =~= all.skip(n));
                assert(all.take(n).drop_last() =~= all.take(n - 1));
            }
            data.insert(j, x);
            proof {
                assert forall|a: int, b: int| 0 <= a < b < data@.len() implies key_le(
                    #[trigger] data@[a]@,
                    #[trigger] data@[b]@,
                ) by {
                    if b < j {
                        assert(key_le(before[a]@, before[b]@));
                    } else if b == j {
                        lemma_key_le_total(x@, before[a]@);
                    } else if a == j {
                        if b - 1 > j {
                            assert(key_le(before[j as int]@, before[b - 1]@));
                            lemma_key_le_transitive(x@, before[j as int]@, before[b - 1]@);
                        }
                    } else if a < j {
                        assert(key_le(before[a]@, before[b - 1]@));
                    } else {
                        assert(key_le(before[a - 1]@, before[b - 1]@));
                    }
                }
            }
        }
        proof {
            assert(all.skip(0) =~= all);
        }
        Snippets { data, embedding }
    }

    /// The number of snippets.
    pub fn len(&self) -> (n: usize)
        ensures
            n == self@.len(),
    {
        self.data.len()
    }

    /// All snippets, in the order of the store: the position of each is its id.
    pub fn snippets(&self) -> (all: &Vec<SingleSnippet>)
        ensures
            all@ == self@,
            is_ordered(self@),
    {
        proof {
            use_type_invariant(self);
        }
        &self.data
    }

    /// The model that semantic queries run on, if one was chosen.
    pub fn embedding(&self) -> (model: &Option<ModelInfo>)
        ensures
            *model == self.spec_embedding(),
    {
        &self.embedding
    }

    /// The snippet with a given id, if there is one.
    pub fn snippet(&self, id: usize) -> (r: Option<&SingleSnippet>)
        ensures
            r is Some <==> id < self@.len(),
            r is Some ==> *r->0 == self@[id as int],
    {
        if id < self.data.len() {
            Some(&self.data[id])
        } else {
            None
        }
    }

    /// The snippets with the given ids, in the order of the ids. An id that no
    /// snippet has fails the whole query: the first such id is reported.
    pub fn get_by_ids(&self, ids: &Vec<usize>) -> (r: Result<Vec<Hit<'_>>, MyError>)
        ensures
            ids_outcome(self@, ids@, r),
            r is Err <==> exists|k: int| 0 <= k < ids@.len() && #[trigger] ids@[k] >= self@.len(),
    {
        let mut hits: Vec<Hit<'_>> = Vec::new();
        let mut i: usize = 0;
        while i < ids.len()
            invariant
                0 <= i <= ids.len(),
                forall|k: int| 0 <= k < i ==> ids@[k] < self@.len(),
                plain_hits(self@, as_ints(ids@).take(i as int), hits@),
            decreases ids.len() - i,
        {
            let id = ids[i];
            if id >= self.data.len() {
                return Err(MyError::SnippetIdOutOfRange { id });
            }
            hits.push(Hit { id, snippet: &self.data[id], similarity: None });
            i = i + 1;
        }
        proof {
            assert(as_ints(ids@).take(i as int) =~= as_ints(ids@));
        }
        Ok(hits)
    }

    /// The ids of the snippets that a filter keeps, in ascending order.
    pub fn scan(&self, tags: Option<&Vec<SnipTag>>, keyword: Option<&Vec<char>>) -> (ids: Vec<usize>)
        ensures
            as_ints(ids@) == select_ids(
                self@.len() as int,
                query_filter(self@, filter_codes(tags), keyword_view(keyword)),
            ),
            forall|k: int| 0 <= k < ids@.len() ==> ids@[k] < self@.len(),
    {
        let mut ids: Vec<usize> = Vec::new();
        let mut i: usize = 0;
        let ghost keep = query_filter(self@, filter_codes(tags), keyword_view(keyword));
        proof {
            assert(as_ints(ids@) =~= select_ids(0, keep));
        }
        while i < self.data.len()
            invariant
                0 <= i <= self.data.len(),
                keep == query_filter(self@, filter_codes(tags), keyword_view(keyword)),
                as_ints(ids@) == select_ids(i as int, keep),
                forall|k: int| 0 <= k < ids@.len() ==> ids@[k] < self@.len(),
            decreases self.data.len() - i,
        {
            let snippet = &self.data[i];
            let tagged = match tags {
                Some(wanted) => has_tags(&snippet.tags, wanted),
                None => true,
            };
            let kept = tagged && match keyword {
                Some(word) => snippet.has_keyword(word),
                None => true,
            };
            let ghost before = as_ints(ids@);
            if kept {
                ids.push(i);
                proof {
                    assert(as_ints(ids@) =~= before.push(i as int));
                }
            }
            assert(kept == keep(i as int));
            i = i + 1;
        }
        ids
    }

    /// The snippets with the given ids, which the store has, as hits without a
    /// similarity.
    fn hits_of(&self, ids: &Vec<usize>) -> (hits: Vec<Hit<'_>>)
        requires
            forall|k: int| 0 <= k < ids@.len() ==> ids@[k] < self@.len(),
        ensures
            plain_hits(self@, as_ints(ids@), hits@),
    {
        let mut hits: Vec<Hit<'_>> = Vec::new();
        let mut i: usize = 0;
        while i < ids.len()
            invariant
                0 <= i <= ids.len(),
                forall|k: int| 0 <= k < ids@.len() ==> ids@[k] < self@.len(),
                plain_hits(self@, as_ints(ids@).take(i as int), hits@),
            decreases ids.len() - i,
        {
            let id = ids[i];
            hits.push(Hit { id, snippet: &self.data[id], similarity: None });
            i = i + 1;
        }
        proof {
            assert(as_ints(ids@).take(i as int) =~= as_ints(ids@));
        }
        hits
    }

    /// The snippets that have all the given tags, in ascending order of id.
    pub fn get_by_categories(&self, categories: &Vec<SnipTag>) -> (hits: Vec<Hit<'_>>)
        ensures
            plain_hits(
                self@,
                select_ids(self@.len() as int, query_filter(self@, Some(codes(categories@)), None)),
                hits@,
            ),
    {
        let ids = self.scan(Some(categories), None);
        self.hits_of(&ids)
    }

    /// The snippets that match a keyword, whatever the case of its letters, and
    /// that have all the given tags where tags are given, in ascending order of
    /// id.
    pub fn get_by_search(&self, categories: Option<&Vec<SnipTag>>, keyword: &str) -> (hits: Vec<
        Hit<'_>,
    >)
        ensures
            plain_hits(
                self@,
                select_ids(
                    self@.len() as int,
                    query_filter(self@, filter_codes(categories), Some(lowercased(keyword@))),
                ),
                hits@,
            ),
    {
        let lower = lowercase(keyword);
        let word = chars_of(lower.as_str());
        let ids = self.scan(categories, Some(&word));
        self.hits_of(&ids)
    }
}

/// The characters of a keyword, where one is given.
pub open spec fn keyword_view(keyword: Option<&Vec<char>>) -> Option<Seq<char>> {
    match keyword {
        Some(word) => Some(word@),
        None => None,
    }
}


/// Where the embedding of a candidate comes from.
#[derive(Clone, Debug, PartialEq, Eq)]
pub enum EmbeddingSource<'a> {
    /// The snippet carries an embedding that the model made: its bit patterns.
    Cached { bits: &'a Vec<u32> },
    /// The snippet carries none: the model has to embed this text.
    Compute { text: String },
}

/// A snippet that a semantic query has to score.
#[derive(Clone, Debug, PartialEq, Eq)]
pub struct Candidate<'a> {
    pub id: usize,
    pub source: EmbeddingSource<'a>,
}

/// The first embedding of a list that a given model made, if there is one.
pub open spec fn cached_bits(list: Seq<(Model, Seq<u32>)>, model: Model) -> Option<Seq<u32>>
    decreases list.len(),
{
    if list.len() == 0 {
        None
    } else if list[0].0 == model {
        Some(list[0].1)
    } else {
        cached_bits(list.drop_first(), model)
    }
}

/// Whether a candidate names a snippet of the store and the right source for
/// its embedding: the one that the snippet carries for the model, and else the
/// description as one line.
pub open spec fn is_candidate(store: Seq<SingleSnippet>, model: Model, c: Candidate) -> bool {
    &&& 0 <= c.id < store.len()
    &&& match c.source {
        EmbeddingSource::Cached { bits } => cached_bits(store[c.id as int]@.embedding, model)
            == Some(bits@),
        EmbeddingSource::Compute { text } => cached_bits(store[c.id as int]@.embedding, model)
            is None && text@ == without(store[c.id as int]@.discription, '\n'),
    }
}

/// The ids of a list of candidates.
pub open spec fn candidate_ids(list: Seq<Candidate>) -> Seq<int> {
    list.map_values(|c: Candidate| c.id as int)
}

/// Whether `hits` are the snippets of a ranking, in its order, each with its
/// score.
pub open spec fn scored_hits(store: Seq<SingleSnippet>, ranking: Seq<Scored>, hits: Seq<Hit>) -> bool {
    &&& hits.len() == ranking.len()
    &&& forall|k: int|
        0 <= k < hits.len() ==> {
            &&& (#[trigger] hits[k]).id == ranking[k].id
            &&& ranking[k].id < store.len()
            &&& *hits[k].snippet == store[ranking[k].id as int]
            &&& hits[k].similarity == Some(ranking[k].score)
        }
}

impl SingleSnippet {
    /// The embedding of the description that a given model made ahead, if the
    /// snippet carries one.
    pub fn precomputed(&self, model: Model) -> (r: Option<&Vec<u32>>)
        ensures
            match r {
                Some(bits) => cached_bits(self@.embedding, model) == Some(bits@),
                None => cached_bits(self@.embedding, model) is None,
            },
    {
        let ghost list = embeddings(self.embedding@);
        let mut i: usize = 0;
        proof {
            assert(list.skip(0) =~= list);
        }
        while i < self.embedding.len()
            invariant
                0 <= i <= self.embedding.len(),
                list == embeddings(self.embedding@),
                cached_bits(list, model) == cached_bits(list.skip(i as int), model),
            decreases self.embedding.len() - i,
        {
            proof {
                assert(list.skip(i as int)[0] == (
                    self.embedding@[i as int].model,
                    self.embedding@[i as int].bits@,
                ));
                assert(list.skip(i as int).drop_first() =~= list.skip(i + 1));
            }
            if self.embedding[i].model == model {
                return Some(&self.embedding[i].bits);
            }
            i = i + 1;
        }
        None
    }

    /// The text that a model embeds for this snippet: the description as one
    /// line.
    pub fn embedding_text(&self) -> (text: String)
        ensures
            text@ == without(self@.discription, '\n'),
    {
        let line = remove_char(&chars_of(self.discription.as_str()), '\n');
        text_of(&line)
    }
}

impl Snippets {
    /// The snippets that a semantic query has to score: those that have all the
    /// given tags, where tags are given, in ascending order of id. Each comes
    /// with the embedding that it carries for the model or, where it carries
    /// none, with the text to embed.
    pub fn semantic_candidates(&self, categories: Option<&Vec<SnipTag>>, model: Model) -> (list: Vec<
        Candidate<'_>,
    >)
        ensures
            candidate_ids(list@) == select_ids(
                self@.len() as int,
                query_filter(self@, filter_codes(categories), None),
            ),
            forall|k: int| 0 <= k < list@.len() ==> is_candidate(self@, model, #[trigger] list@[k]),
    {
        let ids = self.scan(categories, None);
        let mut list: Vec<Candidate<'_>> = Vec::new();
        let mut i: usize = 0;
        while i < ids.len()
            invariant
                0 <= i <= ids.len(),
                forall|k: int| 0 <= k < ids@.len() ==> ids@[k] < self@.len(),
                candidate_ids(list@) == as_ints(ids@).take(i as int),
                forall|k: int| 0 <= k < list@.len() ==> is_candidate(self@, model, #[trigger] list@[k]),
            decreases ids.len() - i,
        {
            let id = ids[i];
            let snippet = &self.data[id];
            let source = match snippet.precomputed(model) {
                Some(bits) => EmbeddingSource::Cached { bits },
                None => EmbeddingSource::Compute { text: snippet.embedding_text() },
            };
            let ghost before = candidate_ids(list@);
            list.push(Candidate { id, source });
            proof {
                assert(candidate_ids(list@) =~= before.push(id as int));
                assert(as_ints(ids@).take(i + 1) =~= as_ints(ids@).take(i as int).push(id as int));
            }
            i = i + 1;
        }
        proof {
            assert(as_ints(ids@).take(i as int) =~= as_ints(ids@));
        }
        list
    }

    /// The result of a semantic query from the scores of its candidates: the
    /// candidates by descending score, equal scores by ascending id, and no
    /// more than `top_n` of them. A score for an id that no snippet has fails
    /// the whole query: the first such id is reported.
    pub fn semantic_hits(&self, scored: &Vec<Scored>, top_n: usize) -> (r: Result<
        Vec<Hit<'_>>,
        MyError,
    >)
        ensures
            match r {
                Ok(hits) => {
                    &&& forall|k: int| 0 <= k < scored@.len() ==> scored@[k].id < self@.len()
                    &&& scored_hits(self@, ranked(scored@, top_n as int), hits@)
                    &&& hits@.len() == (if top_n < scored@.len() {
                        top_n as int
                    } else {
                        scored@.len() as int
                    })
                },
                Err(e) => exists|k: int|
                    {
                        &&& 0 <= k < scored@.len()
                        &&& (#[trigger] scored@[k]).id >= self@.len()
                        &&& forall|j: int| 0 <= j < k ==> scored@[j].id < self@.len()
                        &&& e@ == (MyErrorView::SnippetIdOutOfRange { id: scored@[k].id })
                    },
            },
    {
        let mut i: usize = 0;
        while i < scored.len()
            invariant
                0 <= i <= scored.len(),
                forall|k: int| 0 <= k < i ==> scored@[k].id < self@.len(),
            decreases scored.len() - i,
        {
            if scored[i].id >= self.data.len() {
                return Err(MyError::SnippetIdOutOfRange { id: scored[i].id });
            }
            i = i + 1;
        }
        let ranking = rank(scored, top_n);
        proof {
            lemma_ranked_members(scored@, top_n as int);
            lemma_ranked_len(scored@, top_n as int);
        }
        let mut hits: Vec<Hit<'_>> = Vec::new();
        let mut k: usize = 0;
        while k < ranking.len()
            invariant
                0 <= k <= ranking.len(),
                forall|j: int| 0 <= j < ranking@.len() ==> (#[trigger] ranking@[j]).id < self@.len(),
                scored_hits(self@, ranking@.take(k as int), hits@),
            decreases ranking.len() - k,
        {
            let entry = ranking[k];
            hits.push(Hit { id: entry.id, snippet: &self.data[entry.id], similarity: Some(entry.score) });
            k = k + 1;
        }
        proof {
            assert(ranking@.take(k as int) =~= ranking@);
        }
        Ok(hits)
    }
}


/// Whether `r` is the outcome of asking a store for the snippets with the given
/// ids: the snippets in the order of the ids, or the first id that no snippet
/// has.
pub open spec fn ids_outcome(store: Seq<SingleSnippet>, ids: Seq<usize>, r: Result<Vec<Hit>, MyError>) -> bool {
    match r {
        Ok(hits) => {
            &&& forall|k: int| 0 <= k < ids.len() ==> ids[k] < store.len()
            &&& plain_hits(store, as_ints(ids), hits@)
        },
        Err(e) => exists|k: int|
            {
                &&& 0 <= k < ids.len()
                &&& #[trigger] ids[k] >= store.len()
                &&& forall|j: int| 0 <= j < k ==> ids[j] < store.len()
                &&& e@ == (MyErrorView::SnippetIdOutOfRange { id: ids[k] })
            },
    }
}

/// What a query selects: the snippets themselves, or for a semantic query the
/// candidates that have to be scored first.
#[derive(Clone, Debug, PartialEq, Eq)]
pub enum Selection<'a> {
    Hits { hits: Vec<Hit<'a>> },
    Candidates { list: Vec<Candidate<'a>> },
}

/// Whether `r` is the outcome of a query on a store.
pub open spec fn query_outcome(store: Seq<SingleSnippet>, query: QuerySpec, r: Result<Selection, MyError>) -> bool {
    match query {
        QuerySpec::ById { ids } => match r {
            Ok(Selection::Hits { hits }) => ids_outcome(store, ids@, Ok(hits)),
            Ok(Selection::Candidates { .. }) => false,
            Err(e) => ids_outcome(store, ids@, Err(e)),
        },
        QuerySpec::ByTags { tags } => match r {
            Ok(Selection::Hits { hits }) => plain_hits(
                store,
                select_ids(store.len() as int, query_filter(store, Some(codes(tags@)), None)),
                hits@,
            ),
            _ => false,
        },
        QuerySpec::ByKeyword { tags, text } => match r {
            Ok(Selection::Hits { hits }) => plain_hits(
                store,
                select_ids(
                    store.len() as int,
                    query_filter(store, filter_codes(tags), Some(lowercased(text@))),
                ),
                hits@,
            ),
            _ => false,
        },
        QuerySpec::BySemantic { tags, model, text, top_n } => match r {
            Ok(Selection::Candidates { list }) => {
                &&& candidate_ids(list@) == select_ids(
                    store.len() as int,
                    query_filter(store, filter_codes(tags), None),
                )
                &&& forall|k: int|
                    0 <= k < list@.len() ==> is_candidate(store, model, #[trigger] list@[k])
            },
            _ => false,
        },
    }
}

/// Whether `tags` holds a tag of `wanted`.
pub open spec fn has_any_tag(tags: Seq<int>, wanted: Seq<int>) -> bool {
    exists|k: int| 0 <= k < wanted.len() && tags.contains(#[trigger] wanted[k])
}

/// The filter of a summary: the snippets that have a tag of `wanted`, and that
/// have `tag` where one is given.
pub open spec fn summary_filter(store: Seq<SingleSnippet>, wanted: Seq<int>, tag: Option<int>) -> spec_fn(
    int,
) -> bool {
    |i: int|
        {
            &&& 0 <= i < store.len()
            &&& has_any_tag(store[i]@.tags, wanted)
            &&& tag is Some ==> store[i]@.tags.contains(tag->0)
        }
}

/// The code of a tag, where one is given.
pub open spec fn opt_code(tag: Option<SnipTag>) -> Option<int> {
    match tag {
        Some(t) => Some(t.code as int),
        None => None,
    }
}

/// Whether one list of tags holds a tag of another.
pub fn has_some_tag(tags: &Vec<SnipTag>, wanted: &Vec<SnipTag>) -> (r: bool)
    ensures
        r == has_any_tag(codes(tags@), codes(wanted@)),
{
    let mut i: usize = 0;
    while i < wanted.len()
        invariant
            0 <= i <= wanted.len(),
            forall|k: int| 0 <= k < i ==> !codes(tags@).contains(#[trigger] codes(wanted@)[k]),
        decreases wanted.len() - i,
    {
        assert(codes(wanted@)[i as int] == wanted@[i as int].code);
        if has_tag(tags, wanted[i]) {
            return true;
        }
        i = i + 1;
    }
    false
}

impl Snippets {
    /// Runs a query. The first three modes give the snippets; the semantic
    /// mode gives the candidates, which have to be scored before
    /// [`Snippets::semantic_hits`] can rank them.
    pub fn get(&self, query: &QuerySpec<'_>) -> (r: Result<Selection<'_>, MyError>)
        ensures
            query_outcome(self@, *query, r),
    {
        match query {
            QuerySpec::ById { ids } => match self.get_by_ids(ids) {
                Ok(hits) => Ok(Selection::Hits { hits }),
                Err(e) => Err(e),
            },
            QuerySpec::ByTags { tags } => Ok(Selection::Hits { hits: self.get_by_categories(tags) }),
            QuerySpec::ByKeyword { tags, text } => Ok(
                Selection::Hits { hits: self.get_by_search(*tags, text.as_str()) },
            ),
            QuerySpec::BySemantic { tags, model, text, top_n } => Ok(
                Selection::Candidates { list: self.semantic_candidates(*tags, *model) },
            ),
        }
    }

    /// The ids of the snippets of a summary, in ascending order: those with a
    /// tag of `categories`, and with `tag` where one is given.
    pub fn summary_ids(&self, categories: &Vec<SnipTag>, tag: Option<SnipTag>) -> (ids: Vec<usize>)
        ensures
            as_ints(ids@) == select_ids(
                self@.len() as int,
                summary_filter(self@, codes(categories@), opt_code(tag)),
            ),
            forall|k: int| 0 <= k < ids@.len() ==> ids@[k] < self@.len(),
    {
        let mut ids: Vec<usize> = Vec::new();
        let mut i: usize = 0;
        let ghost keep = summary_filter(self@, codes(categories@), opt_code(tag));
        proof {
            assert(as_ints(ids@) =~= select_ids(0, keep));
        }
        while i < self.data.len()
            invariant
                0 <= i <= self.data.len(),
                keep == summary_filter(self@, codes(categories@), opt_code(tag)),
                as_ints(ids@) == select_ids(i as int, keep),
                forall|k: int| 0 <= k < ids@.len() ==> ids@[k] < self@.len(),
            decreases self.data.len() - i,
        {
            let snippet = &self.data[i];
            let kept = has_some_tag(&snippet.tags, categories) && match tag {
                Some(t) => has_tag(&snippet.tags, t),
                None => true,
            };
            let ghost before = as_ints(ids@);
            if kept {
                ids.push(i);
                proof {
                    assert(as_ints(ids@) =~= before.push(i as int));
                }
            }
            assert(kept == keep(i as int));
            i = i + 1;
        }
        ids
    }

    /// The snippets of a summary: those with a tag of `categories`, in
    /// ascending order of id.
    pub fn summary(&self, categories: &Vec<SnipTag>) -> (hits: Vec<Hit<'_>>)
        ensures
            plain_hits(
                self@,
                select_ids(self@.len() as int, summary_filter(self@, codes(categories@), None)),
                hits@,
            ),
    {
        let ids = self.summary_ids(categories, None);
        self.hits_of(&ids)
    }

    /// How many snippets of a summary have a given tag.
    pub fn count_tag(&self, categories: &Vec<SnipTag>, tag: SnipTag) -> (count: usize)
        ensures
            count == select_ids(
                self@.len() as int,
                summary_filter(self@, codes(categories@), Some(tag.code as int)),
            ).len(),
    {
        let ids = self.summary_ids(categories, Some(tag));
        ids.len()
    }
}

/// A query by tags finds the snippets that have all the tags, and no others:
/// an id is among those selected exactly if its snippet has every tag that is
/// asked for.
pub proof fn lemma_tags_exact(store: Seq<SingleSnippet>, wanted: Seq<int>, id: int)
    ensures
        select_ids(store.len() as int, query_filter(store, Some(wanted), None)).contains(id) <==> (0
            <= id < store.len() && wanted.to_set().subset_of(store[id]@.tags.to_set())),
{
    lemma_select_ids(store.len() as int, query_filter(store, Some(wanted), None));
    if 0 <= id < store.len() {
        lemma_has_all_tags(store[id]@.tags, wanted);
    }
}

/// To hold every tag of a list is to hold the set of its tags.
pub proof fn lemma_has_all_tags(tags: Seq<int>, wanted: Seq<int>)
    ensures
        has_all_tags(tags, wanted) <==> wanted.to_set().subset_of(tags.to_set()),
{
    if has_all_tags(tags, wanted) {
        assert forall|c: int| wanted.to_set().contains(c) implies tags.to_set().contains(c) by {
            let k = choose|k: int| 0 <= k < wanted.len() && wanted[k] == c;
            assert(tags.contains(wanted[k]));
        }
    }
    if wanted.to_set().subset_of(tags.to_set()) {
        assert forall|k: int| 0 <= k < wanted.len() implies tags.contains(#[trigger] wanted[k]) by {
            assert(wanted.to_set().contains(wanted[k]));
        }
    }
}

/// Putting a snippet in its place adds it to the list and changes nothing else.
pub proof fn lemma_place_permutes(x: SingleSnippet, s: Seq<SingleSnippet>)
    ensures
        place(x, s).to_multiset() == s.to_multiset().insert(x),
        place(x, s).len() == s.len() + 1,
    decreases s.len(),
{
    broadcast use vstd::seq_lib::group_to_multiset_ensures;

    if s.len() == 0 {
        assert(seq![x] =~= s.insert(0, x));
    } else if key_le(x@, s[0]@) {
        assert(seq![x] + s =~= s.insert(0, x));
    } else {
        let rest = s.drop_first();
        lemma_place_permutes(x, rest);
        let placed = place(x, rest);
        assert(seq![s[0]] + placed =~= placed.insert(0, s[0]));
        assert(s =~= rest.insert(0, s[0]));
        assert(rest.to_multiset().insert(x).insert(s[0]) =~= rest.to_multiset().insert(s[0]).insert(x));
    }
}

/// The store holds the snippets that it was given, each as often as it was
/// given, in its own order.
pub proof fn lemma_in_order(s: Seq<SingleSnippet>)
    ensures
        in_order(s).to_multiset() == s.to_multiset(),
        in_order(s).len() == s.len(),
    decreases s.len(),
{
    broadcast use vstd::seq_lib::group_to_multiset_ensures;

    if s.len() > 0 {
        let rest = s.drop_first();
        lemma_in_order(rest);
        lemma_place_permutes(s[0], in_order(rest));
        assert(s =~= rest.insert(0, s[0]));
    }
}


/// Putting a snippet in its place keeps a list in the order of the store.
pub proof fn lemma_place_ordered(x: SingleSnippet, s: Seq<SingleSnippet>)
    requires
        is_ordered(s),
    ensures
        is_ordered(place(x, s)),
        forall|i: int|
            0 <= i < place(x, s).len() ==> (#[trigger] place(x, s)[i] == x || s.contains(place(x, s)[i])),
    decreases s.len(),
{
    let placed = place(x, s);
    if s.len() == 0 {
    } else if key_le(x@, s[0]@) {
        assert forall|i: int, j: int| 0 <= i < j < placed.len() implies key_le(
            #[trigger] placed[i]@,
            #[trigger] placed[j]@,
        ) by {
            if i == 0 {
                if j > 1 {
                    assert(key_le(s[0]@, s[j - 1]@));
                    lemma_key_le_transitive(x@, s[0]@, s[j - 1]@);
                }
            } else {
                assert(key_le(s[i - 1]@, s[j - 1]@));
            }
        }
        assert forall|i: int| 0 <= i < placed.len() implies (#[trigger] placed[i] == x || s.contains(
            placed[i],
        )) by {
            if i > 0 {
                assert(s[i - 1] == placed[i]);
            }
        }
    } else {
        let rest = s.drop_first();
        assert(is_ordered(rest)) by {
            assert forall|i: int, j: int| 0 <= i < j < rest.len() implies key_le(
                #[trigger] rest[i]@,
                #[trigger] rest[j]@,
            ) by {
                assert(key_le(s[i + 1]@, s[j + 1]@));
            }
        }
        lemma_place_ordered(x, rest);
        let inner = place(x, rest);
        lemma_key_le_total(x@, s[0]@);
        assert forall|i: int| 0 <= i < placed.len() implies (#[trigger] placed[i] == x || s.contains(
            placed[i],
        )) by {
            if i == 0 {
                assert(s[0] == placed[0]);
            } else {
                assert(placed[i] == inner[i - 1]);
                if inner[i - 1] != x {
                    let k = choose|k: int| 0 <= k < rest.len() && rest[k] == inner[i - 1];
                    assert(s[k + 1] == placed[i]);
                }
            }
        }
        assert forall|i: int, j: int| 0 <= i < j < placed.len() implies key_le(
            #[trigger] placed[i]@,
            #[trigger] placed[j]@,
        ) by {
            if i == 0 {
                assert(placed[j] == inner[j - 1]);
                if inner[j - 1] != x {
                    let k = choose|k: int| 0 <= k < rest.len() && rest[k] == inner[j - 1];
                    assert(key_le(s[0]@, s[k + 1]@));
                }
            } else {
                assert(key_le(inner[i - 1]@, inner[j - 1]@));
            }
        }
    }
}

/// The snippets of any list, in the order of the store, are in that order.
pub proof fn lemma_in_order_ordered(s: Seq<SingleSnippet>)
    ensures
        is_ordered(in_order(s)),
    decreases s.len(),
{
    if s.len() > 0 {
        lemma_in_order_ordered(s.drop_first());
        lemma_place_ordered(s[0], in_order(s.drop_first()));
    }
}


/// A set of tags has one ascending list: two strictly ascending lists that hold
/// the same codes are the same list.
pub proof fn lemma_ascending_unique(a: Seq<int>, b: Seq<int>)
    requires
        strictly_ascending(a),
        strictly_ascending(b),
        forall|c: int| a.contains(c) <==> b.contains(c),
    ensures
        a == b,
    decreases a.len(),
{
    if a.len() == 0 {
        if b.len() > 0 {
            assert(b.contains(b[0]));
        }
        assert(a =~= b);
    } else {
        assert(a.contains(a[0]));
        let k = choose|k: int| 0 <= k < b.len() && b[k] == a[0];
        assert(b.contains(b[0]));
        let j = choose|j: int| 0 <= j < a.len() && a[j] == b[0];
        assert(a[0] == b[0]) by {
            if j > 0 {
                assert(a[0] < a[j]);
            }
            if k > 0 {
                assert(b[0] < b[k]);
            }
        }
        let ta = a.drop_first();
        let tb = b.drop_first();
        assert forall|c: int| ta.contains(c) <==> tb.contains(c) by {
            if ta.contains(c) {
                let i = choose|i: int| 0 <= i < ta.len() && ta[i] == c;
                assert(a[i + 1] == c);
                assert(a[0] < a[i + 1]);
                assert(a.contains(c));
                let m = choose|m: int| 0 <= m < b.len() && b[m] == c;
                assert(m > 0);
                assert(tb[m - 1] == c);
            }
            if tb.contains(c) {
                let i = choose|i: int| 0 <= i < tb.len() && tb[i] == c;
                assert(b[i + 1] == c);
                assert(b[0] < b[i + 1]);
                assert(b.contains(c));
                let m = choose|m: int| 0 <= m < a.len() && a[m] == c;
                assert(m > 0);
                assert(ta[m - 1] == c);
            }
        }
        assert(strictly_ascending(ta)) by {
            assert forall|i: int, j: int| 0 <= i < j < ta.len() implies ta[i] < ta[j] by {
                assert(a[i + 1] < a[j + 1]);
            }
        }
        assert(strictly_ascending(tb)) by {
            assert forall|i: int, j: int| 0 <= i < j < tb.len() implies tb[i] < tb[j] by {
                assert(b[i + 1] < b[j + 1]);
            }
        }
        lemma_ascending_unique(ta, tb);
        assert(a =~= seq![a[0]] + ta);
        assert(b =~= seq![b[0]] + tb);
    }
}


/// How often a tag occurs among the snippets of a summary.
#[derive(Clone, Copy, Debug, PartialEq, Eq, Structural)]
pub struct TagCount {
    pub tag: SnipTag,
    pub count: usize,
}

/// How many snippets of a summary have a given tag.
pub open spec fn count_of(store: Seq<SingleSnippet>, wanted: Seq<int>, tag: int) -> nat {
    select_ids(store.len() as int, summary_filter(store, wanted, Some(tag))).len()
}

/// The tags with a code below `n` that occur among the snippets of a summary,
/// each with the number of snippets that have it, in ascending order of tag.
pub open spec fn counted(store: Seq<SingleSnippet>, wanted: Seq<int>, n: int) -> Seq<TagCount>
    decreases n,
{
    if n <= 0 {
        Seq::empty()
    } else if count_of(store, wanted, n - 1) > 0 {
        counted(store, wanted, n - 1).push(
            TagCount {
                tag: SnipTag { code: (n - 1) as usize },
                count: count_of(store, wanted, n - 1) as usize,
            },
        )
    } else {
        counted(store, wanted, n - 1)
    }
}

/// The order of a tally: the higher count first, and of two equal counts the
/// lower tag.
pub open spec fn tally_before(a: TagCount, b: TagCount) -> bool {
    a.count > b.count || (a.count == b.count && a.tag.code <= b.tag.code)
}

/// [`tally_before`] as a relation.
pub open spec fn tally_order() -> spec_fn(TagCount, TagCount) -> bool {
    |a: TagCount, b: TagCount| tally_before(a, b)
}

/// The tally of a summary over the tags with a code below `n`: the tags that
/// occur, each with its count, in the order of a tally.
pub open spec fn tallied(store: Seq<SingleSnippet>, wanted: Seq<int>, n: int) -> Seq<TagCount> {
    counted(store, wanted, n).sort_by(tally_order())
}

/// The order of a tally is a total order.
pub proof fn lemma_tally_order_total()
    ensures
        vstd::relations::total_ordering(tally_order()),
{
    let r = tally_order();
    assert forall|a: TagCount, b: TagCount| #[trigger] r(a, b) && #[trigger] r(b, a) implies a == b by {}
    assert forall|a: TagCount, b: TagCount, c: TagCount| #[trigger] r(a, b) && #[trigger] r(b, c) implies r(
        a,
        c,
    ) by {}
    assert forall|a: TagCount, b: TagCount| #[trigger] r(a, b) || #[trigger] r(b, a) by {}
    assert forall|a: TagCount| #[trigger] r(a, a) by {}
}

/// What a tally holds: the counts are in non-increasing order, equal counts in
/// ascending order of tag, and it holds what was counted, each tag once.
pub proof fn lemma_tallied(store: Seq<SingleSnippet>, wanted: Seq<int>, n: int)
    ensures
        forall|i: int, j: int|
            0 <= i < j < tallied(store, wanted, n).len() ==> tally_before(
                #[trigger] tallied(store, wanted, n)[i],
                #[trigger] tallied(store, wanted, n)[j],
            ),
        tallied(store, wanted, n).to_multiset() == counted(store, wanted, n).to_multiset(),
        tallied(store, wanted, n).len() == counted(store, wanted, n).len(),
{
    lemma_tally_order_total();
    let all = counted(store, wanted, n);
    all.lemma_sort_by_ensures(tally_order());
    vstd::seq_lib::to_multiset_len(all.sort_by(tally_order()));
    vstd::seq_lib::to_multiset_len(all);
    let sorted = tallied(store, wanted, n);
    assert forall|i: int, j: int| 0 <= i < j < sorted.len() implies tally_before(
        #[trigger] sorted[i],
        #[trigger] sorted[j],
    ) by {
        assert(tally_order()(sorted[i], sorted[j]));
    }
}

/// What was counted: every tag below `n` that a snippet of the summary has,
/// with the number of such snippets, and no other tag.
pub proof fn lemma_counted(store: Seq<SingleSnippet>, wanted: Seq<int>, n: int, entry: TagCount)
    requires
        n <= usize::MAX + 1,
        store.len() <= usize::MAX,
    ensures
        counted(store, wanted, n).contains(entry) <==> (0 <= entry.tag.code < n && entry.count > 0
            && entry.count == count_of(store, wanted, entry.tag.code as int)),
    decreases n,
{
    if n > 0 {
        lemma_counted(store, wanted, n - 1, entry);
        lemma_select_ids(store.len() as int, summary_filter(store, wanted, Some(n - 1)));
        let before = counted(store, wanted, n - 1);
        let all = counted(store, wanted, n);
        let count = count_of(store, wanted, n - 1);
        assert(count <= usize::MAX) by {
            lemma_select_ids_len(store.len() as int, summary_filter(store, wanted, Some(n - 1)));
        }
        if count > 0 {
            let last = TagCount { tag: SnipTag { code: (n - 1) as usize }, count: count as usize };
            if all.contains(entry) {
                let k = choose|k: int| 0 <= k < all.len() && all[k] == entry;
                if k < before.len() {
                    assert(before[k] == entry);
                }
            }
            if before.contains(entry) {
                let k = choose|k: int| 0 <= k < before.len() && before[k] == entry;
                assert(all[k] == entry);
            }
            assert(all[before.len() as int] == last);
        }
    }
}

/// A filter selects no more ids than there are.
pub proof fn lemma_select_ids_len(n: int, keep: spec_fn(int) -> bool)
    requires
        n >= 0,
    ensures
        select_ids(n, keep).len() <= n,
    decreases n,
{
    if n > 0 {
        lemma_select_ids_len(n - 1, keep);
    }
}

impl Snippets {
    /// The tally of a summary: for each of the first `tags` tags that a snippet
    /// of the summary has, the number of such snippets; the higher count first,
    /// and of two equal counts the lower tag.
    pub fn tally(&self, categories: &Vec<SnipTag>, tags: usize) -> (r: Vec<TagCount>)
        ensures
            r@ == tallied(self@, codes(categories@), tags as int),
    {
        let ghost wanted = codes(categories@);
        let ghost order = tally_order();
        let mut sorted: Vec<TagCount> = Vec::new();
        let mut code: usize = 0;
        proof {
            lemma_tally_order_total();
            assert(sorted@.to_multiset() =~= counted(self@, wanted, 0).to_multiset());
        }
        while code < tags
            invariant
                0 <= code <= tags,
                wanted == codes(categories@),
                order == tally_order(),
                vstd::relations::total_ordering(order),
                vstd::relations::sorted_by(sorted@, order),
                sorted@.to_multiset() == counted(self@, wanted, code as int).to_multiset(),
            decreases tags - code,
        {
            let count = self.count_tag(categories, SnipTag { code });
            if count > 0 {
                let entry = TagCount { tag: SnipTag { code }, count };
                let mut j: usize = 0;
                while j < sorted.len() && (sorted[j].count > count || (sorted[j].count == count
                    && sorted[j].tag.code <= code))
                    invariant
                        0 <= j <= sorted.len(),
                        entry == (TagCount { tag: SnipTag { code }, count }),
                        forall|k: int| 0 <= k < j ==> tally_before(#[trigger] sorted@[k], entry),
                    decreases sorted.len() - j,
                {
                    j = j + 1;
                }
                let ghost before = sorted@;
                sorted.insert(j, entry);
                proof {
                    assert forall|a: int, b: int| 0 <= a < b < sorted@.len() implies #[trigger] order(
                        sorted@[a],
                        sorted@[b],
                    ) by {
                        if b < j {
                            assert(order(before[a], before[b]));
                        } else if b == j {
                            assert(tally_before(before[a], entry));
                        } else if a == j {
                            assert(!tally_before(before[j as int], entry));
                            assert(order(entry, before[j as int]));
                            if b - 1 > j {
                                assert(order(before[j as int], before[b - 1]));
                            }
                            assert(order(entry, before[b - 1]));
                        } else if a < j {
                            assert(order(before[a], before[b - 1]));
                        } else {
                            assert(order(before[a - 1], before[b - 1]));
                        }
                    }
                    vstd::seq_lib::to_multiset_insert(before, j as int, entry);
                    vstd::seq_lib::to_multiset_build(counted(self@, wanted, code as int), entry);
                }
            }
            code = code + 1;
        }
        proof {
            let all = counted(self@, wanted, tags as int);
            all.lemma_sort_by_ensures(order);
            vstd::seq_lib::lemma_sorted_unique(sorted@, all.sort_by(order), order);
        }
        sorted
    }
}

} // verus!
