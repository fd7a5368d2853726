use vstd::prelude::*;
use vstd::relations::{sorted_by, total_ordering};
use vstd::seq_lib::{lemma_sorted_unique, to_multiset_build, to_multiset_insert};

verus! {

/// Largest magnitude of a 32-bit float that is a number: that of infinity.
pub const MAX_MAGNITUDE: u32 = 0x7f80_0000;

/// The bit of the sign in the pattern of a 32-bit float.
pub const SIGN_BIT: u32 = 0x8000_0000;

/// The pattern without its sign.
pub open spec fn magnitude(bits: u32) -> int {
    if bits >= SIGN_BIT {
        bits - SIGN_BIT
    } else {
        bits as int
    }
}

/// Whether the pattern is that of a NaN: it has no place in an order.
pub open spec fn is_nan_bits(bits: u32) -> bool {
    magnitude(bits) > MAX_MAGNITUDE
}

/// The place of a pattern in the order of the numbers: the magnitude, negated
/// where the sign is set. Both zeros have the place 0.
pub open spec fn key_of_bits(bits: u32) -> int {
    if bits >= SIGN_BIT {
        -magnitude(bits)
    } else {
        magnitude(bits)
    }
}

/// The pattern of the number with a given place; for 0 the positive zero.
pub open spec fn bits_of_key(key: int) -> int {
    if key >= 0 {
        key
    } else {
        SIGN_BIT - key
    }
}

/// A similarity score: a 32-bit float that is a number, held by its place in
/// the order of the numbers, so that scores compare as integers.
#[derive(Clone, Copy, Debug, PartialEq, Eq, Structural)]
pub struct Similarity {
    key: i32,
}

impl Similarity {
    #[verifier::type_invariant]
    spec fn in_range(self) -> bool {
        -MAX_MAGNITUDE <= self.key <= MAX_MAGNITUDE
    }

    /// The place of this score in the order of the numbers.
    pub closed spec fn spec_key(self) -> int {
        self.key as int
    }

    /// The score with a given bit pattern; a NaN is no score.
    pub fn from_bits(bits: u32) -> (r: Option<Similarity>)
        ensures
            r is Some <==> !is_nan_bits(bits),
            r is Some ==> r->0.spec_key() == key_of_bits(bits),
    {
        if bits >= SIGN_BIT {
            let m: u32 = bits - SIGN_BIT;
            if m > MAX_MAGNITUDE {
                None
            } else {
                Some(Similarity { key: -(m as i32) })
            }
        } else if bits > MAX_MAGNITUDE {
            None
        } else {
            Some(Similarity { key: bits as i32 })
        }
    }

    /// The bit pattern of this score.
    pub fn to_bits(&self) -> (bits: u32)
        ensures
            bits == bits_of_key(self.spec_key()),
            !is_nan_bits(bits),
            key_of_bits(bits) == self.spec_key(),
    {
        proof {
            use_type_invariant(self);
        }
        if self.key >= 0 {
            self.key as u32
        } else {
            (-self.key) as u32 + SIGN_BIT
        }
    }

    /// The place of this score in the order of the numbers.
    pub fn key(&self) -> (key: i32)
        ensures
            key == self.spec_key(),
            -MAX_MAGNITUDE <= key <= MAX_MAGNITUDE,
    {
        proof {
            use_type_invariant(self);
        }
        self.key
    }
}

/// Two scores with the same place are the same score.
pub proof fn lemma_similarity_by_key(a: Similarity, b: Similarity)
    requires
        a.spec_key() == b.spec_key(),
    ensures
        a == b,
{
}

/// A pattern comes back from its place unchanged, but for the negative zero,
/// which comes back as the positive one.
pub proof fn lemma_bits_round_trip(bits: u32)
    requires
        !is_nan_bits(bits),
    ensures
        bits_of_key(key_of_bits(bits)) == (if bits == SIGN_BIT {
            0
        } else {
            bits as int
        }),
{
}

/// A candidate of a semantic query with its score.
#[derive(Clone, Copy, Debug, PartialEq, Eq, Structural)]
pub struct Scored {
    /// The snippet's id.
    pub id: usize,
    /// Its similarity to the query.
    pub score: Similarity,
}

/// The order of a ranking: the higher score first, and of two equal scores the
/// lower id.
pub open spec fn ranks_before(a: Scored, b: Scored) -> bool {
    a.score.spec_key() > b.score.spec_key() || (a.score.spec_key() == b.score.spec_key() && a.id
        <= b.id)
}

/// [`ranks_before`] as a relation.
pub open spec fn ranking_order() -> spec_fn(Scored, Scored) -> bool {
    |a: Scored, b: Scored| ranks_before(a, b)
}

/// The ranking of a list of candidates: all of them in ranking order, cut to
/// the first `top_n`.
pub open spec fn ranked(candidates: Seq<Scored>, top_n: int) -> Seq<Scored> {
    let all = candidates.sort_by(ranking_order());
    if top_n < candidates.len() {
        all.take(top_n)
    } else {
        all
    }
}

/// The ranking order is a total order on candidates.
pub proof fn lemma_ranking_order_total()
    ensures
        total_ordering(ranking_order()),
{
    let r = ranking_order();
    assert forall|a: Scored, b: Scored| #[trigger] r(a, b) && #[trigger] r(b, a) implies a == b by {
        lemma_similarity_by_key(a.score, b.score);
    }
    assert forall|a: Scored, b: Scored, c: Scored| #[trigger] r(a, b) && #[trigger] r(b, c) implies r(a, c) by {}
    assert forall|a: Scored, b: Scored| #[trigger] r(a, b) || #[trigger] r(b, a) by {}
    assert forall|a: Scored| #[trigger] r(a, a) by {}
}

/// Whether `a` comes before `b` in a ranking, or is the same candidate.
pub fn precedes(a: &Scored, b: &Scored) -> (r: bool)
    ensures
        r == ranks_before(*a, *b),
{
    let ka = a.score.key();
    let kb = b.score.key();
    ka > kb || (ka == kb && a.id <= b.id)
}

/// Ranks the candidates of a semantic query: by descending score, equal scores
/// by ascending id, and no more than `top_n` of them.
pub fn rank(candidates: &Vec<Scored>, top_n: usize) -> (r: Vec<Scored>)
    ensures
        r@ == ranked(candidates@, top_n as int),
{
    let mut sorted: Vec<Scored> = Vec::new();
    let mut i: usize = 0;
    proof {
        lemma_ranking_order_total();
        assert(candidates@.take(0) =~= sorted@);
    }
    while i < candidates.len()
        invariant
            0 <= i <= candidates.len(),
            sorted@.len() == i,
            total_ordering(ranking_order()),
            sorted_by(sorted@, ranking_order()),
            sorted@.to_multiset() == candidates@.take(i as int).to_multiset(),
        decreases candidates.len() - i,
    {
        let c = candidates[i];
        let mut j: usize = 0;
        while j < sorted.len() && precedes(&sorted[j], &c)
            invariant
                0 <= j <= sorted.len(),
                forall|k: int| 0 <= k < j ==> ranks_before(#[trigger] sorted@[k], c),
            decreases sorted.len() - j,
        {
            j = j + 1;
        }
        let ghost before = sorted@;
        sorted.insert(j, c);
        proof {
            let r = ranking_order();
            assert forall|a: int, b: int| 0 <= a < b < sorted@.len() implies #[trigger] r(
                sorted@[a],
                sorted@[b],
            ) by {
                if b < j {
                    assert(r(before[a], before[b]));
                } else if b == j {
                    assert(ranks_before(before[a], c));
                } else if a == j {
                    assert(!ranks_before(before[j as int], c));
                    assert(r(c, before[j as int]));
                    if b - 1 > j {
                        assert(r(before[j as int], before[b - 1]));
                    }
                    assert(r(c, before[b - 1]));
                } else if a < j {
                    assert(r(before[a], before[b - 1]));
                } else {
                    assert(r(before[a - 1], before[b - 1]));
                }
            }
            to_multiset_insert(before, j as int, c);
            let prefix = candidates@.take(i as int);
            to_multiset_build(prefix, c);
            assert(candidates@.take(i + 1) =~= prefix.push(c));
        }
        i = i + 1;
    }
    proof {
        assert(candidates@.take(candidates.len() as int) =~= candidates@);
        candidates@.lemma_sort_by_ensures(ranking_order());
        lemma_sorted_unique(sorted@, candidates@.sort_by(ranking_order()), ranking_order());
        assert(sorted@ == candidates@.sort_by(ranking_order()));
    }
    sorted.truncate(top_n);
    proof {
        let all = candidates@.sort_by(ranking_order());
        if top_n < candidates.len() {
            assert(sorted@ =~= all.take(top_n as int));
        }
    }
    sorted
}


/// All candidates in ranking order: as many as were given, each as often as it
/// was given.
pub proof fn lemma_ranked_all(candidates: Seq<Scored>)
    ensures
        candidates.sort_by(ranking_order()).len() == candidates.len(),
        candidates.sort_by(ranking_order()).to_multiset() == candidates.to_multiset(),
        sorted_by(candidates.sort_by(ranking_order()), ranking_order()),
{
    lemma_ranking_order_total();
    candidates.lemma_sort_by_ensures(ranking_order());
    vstd::seq_lib::to_multiset_len(candidates.sort_by(ranking_order()));
    vstd::seq_lib::to_multiset_len(candidates);
}

/// A ranking holds `top_n` candidates, or all of them where there are fewer.
pub proof fn lemma_ranked_len(candidates: Seq<Scored>, top_n: int)
    requires
        0 <= top_n,
    ensures
        ranked(candidates, top_n).len() == (if top_n < candidates.len() {
            top_n
        } else {
            candidates.len() as int
        }),
{
    lemma_ranked_all(candidates);
}

/// A ranking is in descending order of score, and candidates of equal score
/// are in ascending order of id.
pub proof fn lemma_ranked_descending(candidates: Seq<Scored>, top_n: int, i: int, j: int)
    requires
        0 <= top_n,
        0 <= i < j < ranked(candidates, top_n).len(),
    ensures
        ranked(candidates, top_n)[i].score.spec_key() >= ranked(candidates, top_n)[j].score.spec_key(),
        ranked(candidates, top_n)[i].score.spec_key() == ranked(candidates, top_n)[j].score.spec_key()
            ==> ranked(candidates, top_n)[i].id <= ranked(candidates, top_n)[j].id,
{
    lemma_ranked_all(candidates);
    lemma_ranked_len(candidates, top_n);
    let all = candidates.sort_by(ranking_order());
    assert(ranking_order()(all[i], all[j]));
}

/// Every candidate of a ranking is one of the candidates that were given, and
/// a ranking that was not cut holds each of them as often as it was given.
pub proof fn lemma_ranked_members(candidates: Seq<Scored>, top_n: int)
    requires
        0 <= top_n,
    ensures
        forall|i: int| 0 <= i < ranked(candidates, top_n).len() ==> candidates.contains(
            #[trigger] ranked(candidates, top_n)[i],
        ),
        top_n >= candidates.len() ==> ranked(candidates, top_n).to_multiset()
            == candidates.to_multiset(),
{
    lemma_ranked_all(candidates);
    lemma_ranked_len(candidates, top_n);
    let all = candidates.sort_by(ranking_order());
    let r = ranked(candidates, top_n);
    assert forall|i: int| 0 <= i < r.len() implies candidates.contains(#[trigger] r[i]) by {
        lemma_ranking_order_total();
        candidates.lemma_sort_by_ensures(ranking_order());
        assert(r[i] == all[i]);
        assert(all.contains(all[i]));
    }
}

/// What a ranking leaves out comes after all that it holds.
pub proof fn lemma_ranked_best(candidates: Seq<Scored>, top_n: int, i: int, j: int)
    requires
        0 <= top_n,
        0 <= i < ranked(candidates, top_n).len() <= j < candidates.len(),
    ensures
        ranks_before(ranked(candidates, top_n)[i], candidates.sort_by(ranking_order())[j]),
{
    lemma_ranked_all(candidates);
    lemma_ranked_len(candidates, top_n);
    lemma_ranked_len(candidates, candidates.len() as int);
    let all = candidates.sort_by(ranking_order());
    assert(ranking_order()(all[i], all[j]));
}

/// There is one ranking only: a list in ranking order that holds each candidate
/// as often as it was given is the ranking of all of them.
pub proof fn lemma_ranking_unique(candidates: Seq<Scored>, other: Seq<Scored>)
    requires
        sorted_by(other, ranking_order()),
        other.to_multiset() == candidates.to_multiset(),
    ensures
        other == ranked(candidates, candidates.len() as int),
{
    lemma_ranking_order_total();
    candidates.lemma_sort_by_ensures(ranking_order());
    lemma_sorted_unique(other, candidates.sort_by(ranking_order()), ranking_order());
}

/// A ranking depends on which candidates are given, not on the order in which
/// they are given: the same candidates have the same ranking.
pub proof fn lemma_ranked_deterministic(first: Seq<Scored>, second: Seq<Scored>, top_n: int)
    requires
        first.to_multiset() == second.to_multiset(),
    ensures
        ranked(first, top_n) == ranked(second, top_n),
{
    lemma_ranking_order_total();
    lemma_ranked_all(first);
    lemma_ranked_all(second);
    lemma_sorted_unique(
        first.sort_by(ranking_order()),
        second.sort_by(ranking_order()),
        ranking_order(),
    );
    vstd::seq_lib::to_multiset_len(first);
    vstd::seq_lib::to_multiset_len(second);
}

} // verus!
