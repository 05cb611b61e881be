//! Fuzzy ranking of launcher entries against a query, scored by
//! `nucleo-matcher` (smart case, smart normalization).
use nucleo_matcher::pattern::{CaseMatching, Normalization, Pattern};
use nucleo_matcher::{Config, Matcher, Utf32Str};
use vstd::prelude::*;
use crate::sort::{
    is_sorted, lemma_sorted_contains, lemma_sorted_len, lemma_sorted_multiset, lemma_sorted_no_dup,
    lemma_sorted_stable_is_sorted, sort_stable, sorted_stable,
    strict_weak_on, Ranked,
};

verus! {

/// nucleo's score of `haystack` for the pattern parsed from `needle`
/// (smart case, smart normalization, default configuration), `None` when
/// it does not match.
pub uninterp spec fn fuzzy_score(needle: Seq<char>, haystack: Seq<char>) -> Option<u32>;

#[verifier::external_type_specification]
#[verifier::external_body]
pub struct ExMatcher(Matcher);

/// Trusted: calls `Matcher::new(Config::DEFAULT)`; the matcher is opaque
/// here.
#[verifier::external_body]
fn new_matcher() -> (m: Matcher) {
    Matcher::new(Config::DEFAULT)
}

/// Score one haystack against `needle`.
/// Trusted: parses `needle` with `Pattern::parse(needle, CaseMatching::Smart,
/// Normalization::Smart)` and calls `Pattern::score` on the haystack as a
/// `Utf32Str`. The score depends only on the needle and the haystack: the
/// matcher's case setting is reset for each pattern atom, the rest of its
/// configuration stays the default, and its buffers are scratch space.
/// The result is named `fuzzy_score`.
#[verifier::external_body]
fn score_one(needle: &str, haystack: &str, matcher: &mut Matcher) -> (r: Option<u32>)
    ensures
        r == fuzzy_score(needle@, haystack@),
{
    let mut buf = Vec::new();
    Pattern::parse(needle, CaseMatching::Smart, Normalization::Smart).score(Utf32Str::new(haystack, &mut buf), matcher)
}

/// Score every haystack against `needle`.
fn score_haystacks(needle: &str, haystacks: &[String]) -> (r: Vec<Option<u32>>)
    ensures
        r@.len() == haystacks@.len(),
        forall|i: int| 0 <= i < haystacks@.len() ==> #[trigger] r@[i] == fuzzy_score(needle@, haystacks@[i]@),
{
    let mut matcher = new_matcher();
    let mut out: Vec<Option<u32>> = Vec::new();
    let mut i: usize = 0;
    while i < haystacks.len()
        invariant
            i <= haystacks@.len(),
            out@.len() == i,
            forall|k: int| 0 <= k < i ==> #[trigger] out@[k] == fuzzy_score(needle@, haystacks@[k]@),
        decreases haystacks@.len() - i,
    {
        out.push(score_one(needle, haystacks[i].as_str(), &mut matcher));
        i = i + 1;
    }
    out
}

/// Higher scores first; equal scores by original index.
impl Ranked for (usize, i32) {
    open spec fn spec_before(&self, other: &Self) -> bool {
        self.1 > other.1 || (self.1 == other.1 && self.0 < other.0)
    }

    fn before(&self, other: &Self) -> (b: bool) {
        self.1 > other.1 || (self.1 == other.1 && self.0 < other.0)
    }
}

/// `(index, score)` of every haystack that matched, in haystack order,
/// given each haystack's score.
pub open spec fn matched(scores: Seq<Option<u32>>) -> Seq<(usize, i32)>
    decreases scores.len(),
{
    if scores.len() == 0 {
        Seq::empty()
    } else {
        match scores.last() {
            Some(s) => matched(scores.drop_last()).push(((scores.len() - 1) as usize, s as i32)),
            None => matched(scores.drop_last()),
        }
    }
}

/// Every haystack with score 0, in order: the answer to an empty query.
pub open spec fn all_zero(n: nat) -> Seq<(usize, i32)> {
    Seq::new(n, |i: int| (i as usize, 0i32))
}

/// Rank given scores: the matches, highest score first, ties by index.
pub fn rank_scores(scores: &Vec<Option<u32>>) -> (r: Vec<(usize, i32)>)
    ensures
        r@ == sorted_stable(matched(scores@)),
{
    let mut out: Vec<(usize, i32)> = Vec::new();
    let mut i: usize = 0;
    while i < scores.len()
        invariant
            i <= scores@.len(),
            out@ == matched(scores@.take(i as int)),
        decreases scores@.len() - i,
    {
        proof {
            assert(scores@.take(i + 1).drop_last() =~= scores@.take(i as int));
        }
        match scores[i] {
            Some(s) => out.push((i, s as i32)),
            None => {},
        }
        i = i + 1;
    }
    assert(scores@.take(i as int) =~= scores@);
    sort_stable(out)
}

/// Score every haystack against `needle`: `(index, score)` of the matches,
/// highest score first, ties by index; an empty needle matches everything
/// with score 0 in original order.
pub fn match_indices(needle: &str, haystacks: &[String]) -> (r: Vec<(usize, i32)>)
    ensures
        needle@.len() == 0 ==> r@ == all_zero(haystacks@.len()),
        needle@.len() > 0 ==> r@ == sorted_stable(matched(
            Seq::new(haystacks@.len(), |i: int| fuzzy_score(needle@, haystacks@[i]@)),
        )),
{
    if needle.is_empty() {
        let mut out: Vec<(usize, i32)> = Vec::new();
        let mut i: usize = 0;
        while i < haystacks.len()
            invariant
                i <= haystacks@.len(),
                out@ == all_zero(i as nat),
            decreases haystacks@.len() - i,
        {
            out.push((i, 0));
            i = i + 1;
            assert(out@ =~= all_zero(i as nat));
        }
        return out;
    }
    let scores = score_haystacks(needle, haystacks);
    assert(scores@ =~= Seq::new(haystacks@.len(), |i: int| fuzzy_score(needle@, haystacks@[i]@)));
    rank_scores(&scores)
}

proof fn lemma_matched(scores: Seq<Option<u32>>)
    requires
        scores.len() <= usize::MAX,
    ensures
        forall|k: int| 0 <= k < matched(scores).len() ==> {
            let e = #[trigger] matched(scores)[k];
            &&& 0 <= e.0 < scores.len()
            &&& scores[e.0 as int] is Some
            &&& e.1 == scores[e.0 as int].unwrap() as i32
        },
        forall|a: int, b: int| 0 <= a < b < matched(scores).len()
            ==> #[trigger] matched(scores)[a].0 < #[trigger] matched(scores)[b].0,
        forall|i: int| 0 <= i < scores.len() && (#[trigger] scores[i]) is Some
            ==> exists|k: int| 0 <= k < matched(scores).len() && matched(scores)[k].0 == i,
    decreases scores.len(),
{
    if scores.len() > 0 {
        let p = scores.drop_last();
        lemma_matched(p);
        let mp = matched(p);
        let m = matched(scores);
        assert forall|k: int| 0 <= k < mp.len() implies m[k] == mp[k] by {}
        assert forall|i: int| 0 <= i < p.len() implies p[i] == scores[i] by {}
        assert forall|i: int| 0 <= i < scores.len() && (#[trigger] scores[i]) is Some
            implies exists|k: int| 0 <= k < m.len() && m[k].0 == i by {
            if i < p.len() {
                assert(p[i] is Some);
                let k = choose|k: int| 0 <= k < mp.len() && mp[k].0 == i;
                assert(m[k] == mp[k]);
            } else {
                assert(scores.last() == scores[i]);
                assert(m == mp.push(((scores.len() - 1) as usize, scores.last().unwrap() as i32)));
                assert(m[m.len() - 1].0 == i);
            }
        }
    }
}

/// Ranked results never put a lower score before a higher one; they list
/// each matching haystack exactly once, with its score, and nothing else.
pub proof fn law_ranked_by_score(scores: Seq<Option<u32>>)
    requires
        scores.len() <= usize::MAX,
    ensures
        is_sorted(sorted_stable(matched(scores))),
        forall|i: int, j: int| 0 <= i < j < sorted_stable(matched(scores)).len()
            ==> sorted_stable(matched(scores))[i].1 >= sorted_stable(matched(scores))[j].1,
        sorted_stable(matched(scores)).to_multiset() == matched(scores).to_multiset(),
        forall|k: int| 0 <= k < sorted_stable(matched(scores)).len() ==> {
            let e = #[trigger] sorted_stable(matched(scores))[k];
            &&& 0 <= e.0 < scores.len()
            &&& scores[e.0 as int] is Some
            &&& e.1 == scores[e.0 as int].unwrap() as i32
        },
        forall|a: int, b: int| 0 <= a < b < sorted_stable(matched(scores)).len()
            ==> #[trigger] sorted_stable(matched(scores))[a].0 != #[trigger] sorted_stable(matched(scores))[b].0,
        forall|i: int| 0 <= i < scores.len() ==> ((#[trigger] scores[i]) is Some <==> exists|k: int|
            0 <= k < sorted_stable(matched(scores)).len() && sorted_stable(matched(scores))[k].0 == i),
{
    let m = matched(scores);
    assert(strict_weak_on(m));
    lemma_sorted_stable_is_sorted(m);
    lemma_sorted_multiset(m);
    lemma_sorted_len(m);
    lemma_matched(scores);
    let r = sorted_stable(m);
    assert forall|i: int, j: int| 0 <= i < j < r.len() implies r[i].1 >= r[j].1 by {
        assert(!r[j].spec_before(&r[i]));
    }
    assert(m.no_duplicates()) by {
        assert forall|a: int, b: int| 0 <= a < m.len() && 0 <= b < m.len() && a != b implies m[a] != m[b] by {
            if a < b {
                assert(m[a].0 < m[b].0);
            } else {
                assert(m[b].0 < m[a].0);
            }
        }
    }
    lemma_sorted_no_dup(m);
    assert forall|k: int| 0 <= k < r.len() implies {
        let e = #[trigger] r[k];
        &&& 0 <= e.0 < scores.len()
        &&& scores[e.0 as int] is Some
        &&& e.1 == scores[e.0 as int].unwrap() as i32
    } by {
        lemma_sorted_contains(m, r[k]);
        assert(r.contains(r[k]));
        let j = choose|j: int| 0 <= j < m.len() && m[j] == r[k];
        assert(m[j] == r[k]);
    }
    assert forall|a: int, b: int| 0 <= a < b < r.len() implies #[trigger] r[a].0 != #[trigger] r[b].0 by {
        if r[a].0 == r[b].0 {
            assert(r[a].1 == scores[r[a].0 as int].unwrap() as i32);
            assert(r[b].1 == scores[r[b].0 as int].unwrap() as i32);
            assert(r[a] == r[b]);
        }
    }
    assert forall|i: int| 0 <= i < scores.len() implies ((#[trigger] scores[i]) is Some <==> exists|k: int|
        0 <= k < r.len() && r[k].0 == i) by {
        if scores[i] is Some {
            let k = choose|k: int| 0 <= k < m.len() && m[k].0 == i;
            assert(m.contains(m[k]));
            lemma_sorted_contains(m, m[k]);
            let j = choose|j: int| 0 <= j < r.len() && r[j] == m[k];
            assert(r[j].0 == i);
        }
        if exists|k: int| 0 <= k < r.len() && r[k].0 == i {
            let k = choose|k: int| 0 <= k < r.len() && r[k].0 == i;
            assert(scores[r[k].0 as int] is Some);
        }
    }
}

} // verus!
