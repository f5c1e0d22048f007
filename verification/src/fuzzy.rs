//! Fuzzy ranking of candidate names against a query, scored by nucleo.
use vstd::prelude::*;

use nucleo::pattern::{AtomKind, CaseMatching, Normalization, Pattern};
use nucleo::{Matcher, Utf32Str};

verus! {

#[derive(Debug, Clone, Copy, PartialEq, Eq, Structural)]
pub struct FuzzyMatch {
    pub index: usize,
    pub score: u32,
}

/// The score that nucleo gives `candidate` for `query` (`None`: no match).
pub uninterp spec fn nucleo_score(query: Seq<char>, candidate: Seq<char>) -> Option<u32>;

/// The longest query, in characters, that is scored. nucleo computes the
/// score of each word of the query in a `u16`, adding at most 26 for each
/// matched character and a small bonus, which stays below `u16::MAX` for
/// words of up to this length; the scores of at most half as many words
/// are then added in a `u32`. Longer queries can overflow those sums.
pub const MAX_QUERY_LEN: usize = 2048;

/// A query of plain lowercase words characters: letters a-z, digits and
/// `-`, `_`, `:`, `.`; no uppercase letter, no space, no backslash.
pub open spec fn plain_query(q: Seq<char>) -> bool {
    &&& q.len() > 0
    &&& forall|j: int|
        0 <= j < q.len() ==> ('a' <= #[trigger] q[j] <= 'z' || '0' <= q[j] <= '9' || q[j] == '-'
            || q[j] == '_' || q[j] == ':' || q[j] == '.')
}

/// Every character of `s` is ASCII.
pub open spec fn ascii_text(s: Seq<char>) -> bool {
    forall|j: int| 0 <= j < s.len() ==> (#[trigger] s[j] as u32) < 128
}

/// An ASCII uppercase letter as lowercase; any other character as it is.
pub open spec fn lower_ascii(c: char) -> char {
    if 'A' <= c <= 'Z' {
        ((c as u32) + 32) as char
    } else {
        c
    }
}

pub open spec fn lowercase(s: Seq<char>) -> Seq<char> {
    s.map_values(|c: char| lower_ascii(c))
}

/// The characters of `q` occur in `s` in the same order.
pub open spec fn is_subsequence(q: Seq<char>, s: Seq<char>) -> bool
    decreases s.len(),
{
    if q.len() == 0 {
        true
    } else if s.len() == 0 {
        false
    } else if q.last() == s.last() {
        is_subsequence(q.drop_last(), s.drop_last())
    } else {
        is_subsequence(q, s.drop_last())
    }
}

/// Calls nucleo's `Pattern::score` for a pattern built with
/// `Pattern::new(query, CaseMatching::Smart, Normalization::Smart,
/// AtomKind::Fuzzy)` on `candidate`, with a default `Matcher`. The contract
/// claims only that the score is a function of the two texts: the pattern
/// is rebuilt from `query` alone, and the matcher's default configuration
/// and scratch space do not change a score. nucleo asserts that a haystack
/// has at most `u32::MAX` characters. For a plain lowercase query and an
/// ASCII candidate the contract also claims when there is a score: smart
/// case ignores case for a query without uppercase letters (the matcher
/// lowercases ASCII letters of the candidate), the query is one word, and a
/// fuzzy word matches exactly when its characters occur in the candidate
/// in order.
#[verifier::external_body]
fn fuzzy_score(query: &str, candidate: &str) -> (r: Option<u32>)
    requires
        query@.len() <= MAX_QUERY_LEN,
        candidate@.len() <= u32::MAX,
    ensures
        r == nucleo_score(query@, candidate@),
        plain_query(query@) && ascii_text(candidate@) ==> (r is Some <==> is_subsequence(
            query@,
            lowercase(candidate@),
        )),
{
    let pattern = Pattern::new(query, CaseMatching::Smart, Normalization::Smart, AtomKind::Fuzzy);
    let mut matcher = Matcher::default();
    let mut buf = Vec::new();
    pattern.score(Utf32Str::new(candidate, &mut buf), &mut matcher)
}

/// `a` comes before `b` in a ranking: a higher score, or the same score and
/// an earlier candidate.
pub open spec fn ranks_before(a: FuzzyMatch, b: FuzzyMatch) -> bool {
    a.score > b.score || (a.score == b.score && a.index < b.index)
}

/// `r` ranks the candidates that have a score in `scores`: each entry is a
/// scored candidate with its score, each scored candidate has an entry, and
/// entries go by score descending, ties by position.
pub open spec fn is_ranking(r: Seq<FuzzyMatch>, scores: Seq<Option<u32>>) -> bool {
    &&& forall|k: int|
        #![trigger r[k]]
        0 <= k < r.len() ==> r[k].index < scores.len() && scores[r[k].index as int] == Some(
            r[k].score,
        )
    &&& forall|i: int|
        0 <= i < scores.len() && (#[trigger] scores[i]) is Some ==> exists|k: int|
            0 <= k < r.len() && r[k].index == i
    &&& forall|j: int, k: int| 0 <= j < k < r.len() ==> ranks_before(r[j], r[k])
}

pub open spec fn strictly_ranked(r: Seq<FuzzyMatch>) -> bool {
    forall|j: int, k: int| 0 <= j < k < r.len() ==> ranks_before(r[j], r[k])
}

proof fn lemma_sorted_same_elements(r1: Seq<FuzzyMatch>, r2: Seq<FuzzyMatch>)
    requires
        strictly_ranked(r1),
        strictly_ranked(r2),
        forall|k: int| 0 <= k < r1.len() ==> r2.contains(#[trigger] r1[k]),
        forall|k: int| 0 <= k < r2.len() ==> r1.contains(#[trigger] r2[k]),
    ensures
        r1 == r2,
    decreases r1.len(),
{
    if r1.len() == 0 {
        if r2.len() > 0 {
            assert(r1.contains(r2[0]));
        }
        assert(r1 =~= r2);
    } else {
        assert(r2.contains(r1[0]));
        let j = choose|j: int| 0 <= j < r2.len() && r2[j] == r1[0];
        assert(r1.contains(r2[0]));
        let i = choose|i: int| 0 <= i < r1.len() && r1[i] == r2[0];
        if j > 0 {
            assert(ranks_before(r2[0], r2[j]));
            if i > 0 {
                assert(ranks_before(r1[0], r1[i]));
            }
            assert(false);
        }
        let t1 = r1.drop_first();
        let t2 = r2.drop_first();
        assert forall|k: int| 0 <= k < t1.len() implies t2.contains(#[trigger] t1[k]) by {
            assert(t1[k] == r1[k + 1]);
            assert(ranks_before(r1[0], r1[k + 1]));
            assert(r2.contains(r1[k + 1]));
            let m = choose|m: int| 0 <= m < r2.len() && r2[m] == r1[k + 1];
            assert(m != 0);
            assert(t2[m - 1] == r2[m]);
        }
        assert forall|k: int| 0 <= k < t2.len() implies t1.contains(#[trigger] t2[k]) by {
            assert(t2[k] == r2[k + 1]);
            assert(ranks_before(r2[0], r2[k + 1]));
            assert(r1.contains(r2[k + 1]));
            let m = choose|m: int| 0 <= m < r1.len() && r1[m] == r2[k + 1];
            assert(m != 0);
            assert(t1[m - 1] == r1[m]);
        }
        assert forall|a: int, b: int| 0 <= a < b < t1.len() implies ranks_before(t1[a], t1[b]) by {
            assert(t1[a] == r1[a + 1] && t1[b] == r1[b + 1]);
        }
        assert forall|a: int, b: int| 0 <= a < b < t2.len() implies ranks_before(t2[a], t2[b]) by {
            assert(t2[a] == r2[a + 1] && t2[b] == r2[b + 1]);
        }
        lemma_sorted_same_elements(t1, t2);
        assert(r1 =~= r2) by {
            assert forall|k: int| 0 <= k < r1.len() implies r1[k] == r2[k] by {
                if k > 0 {
                    assert(r1[k] == t1[k - 1] && r2[k] == t2[k - 1]);
                }
            }
        }
    }
}

/// A ranking of given scores is unique: whatever ranks the same scores
/// gives the same sequence of matches.
pub proof fn law_ranking_is_unique(r1: Seq<FuzzyMatch>, r2: Seq<FuzzyMatch>, scores: Seq<Option<u32>>)
    requires
        is_ranking(r1, scores),
        is_ranking(r2, scores),
    ensures
        r1 == r2,
{
    assert forall|k: int| 0 <= k < r1.len() implies r2.contains(#[trigger] r1[k]) by {
        let i = r1[k].index as int;
        assert(scores[i] is Some);
        let m = choose|m: int| 0 <= m < r2.len() && r2[m].index == i;
        assert(r2[m] == r1[k]);
    }
    assert forall|k: int| 0 <= k < r2.len() implies r1.contains(#[trigger] r2[k]) by {
        let i = r2[k].index as int;
        assert(scores[i] is Some);
        let m = choose|m: int| 0 <= m < r1.len() && r1[m].index == i;
        assert(r1[m] == r2[k]);
    }
    lemma_sorted_same_elements(r1, r2);
}

/// The scores of `candidates` for `query`.
pub open spec fn scores_for(query: Seq<char>, candidates: Seq<&str>) -> Seq<Option<u32>> {
    candidates.map_values(|c: &str| nucleo_score(query, c@))
}

/// Ranks the candidates that have a score: by score descending, ties in
/// candidate order.
pub fn rank_matches(scores: &Vec<Option<u32>>) -> (r: Vec<FuzzyMatch>)
    ensures
        is_ranking(r@, scores@),
{
    let mut r: Vec<FuzzyMatch> = Vec::new();
    let mut i: usize = 0;
    while i < scores.len()
        invariant
            i <= scores.len(),
            forall|k: int|
                #![trigger r@[k]]
                0 <= k < r@.len() ==> r@[k].index < i && scores@[r@[k].index as int] == Some(
                    r@[k].score,
                ),
            forall|i2: int|
                0 <= i2 < i && (#[trigger] scores@[i2]) is Some ==> exists|k: int|
                    0 <= k < r.len() && r[k].index == i2,
            forall|j: int, k: int| 0 <= j < k < r.len() ==> ranks_before(r[j], r[k]),
        decreases scores.len() - i,
    {
        match scores[i] {
            Some(s) => {
                let mut pos: usize = 0;
                while pos < r.len() && r[pos].score >= s
                    invariant
                        pos <= r.len(),
                        forall|j: int| 0 <= j < pos ==> r[j].score >= s,
                    decreases r.len() - pos,
                {
                    pos += 1;
                }
                let x = FuzzyMatch { index: i, score: s };
                let ghost old_r = r@;
                r.insert(pos, x);
                assert(r@ == old_r.insert(pos as int, x));
                assert forall|k: int| #![trigger r@[k]] 0 <= k < r@.len() implies r@[k].index < i + 1
                    && scores@[r@[k].index as int] == Some(r@[k].score) by {
                    if k < pos {
                        assert(r@[k] == old_r[k]);
                    } else if k > pos {
                        assert(r@[k] == old_r[k - 1]);
                    }
                }
                assert forall|i2: int|
                    0 <= i2 <= i && (#[trigger] scores@[i2]) is Some implies exists|k: int|
                        0 <= k < r.len() && r[k].index == i2 by {
                    if i2 == i {
                        assert(r[pos as int].index == i);
                    } else {
                        let k0 = choose|k: int| 0 <= k < old_r.len() && old_r[k].index == i2;
                        if k0 < pos {
                            assert(r[k0].index == i2);
                        } else {
                            assert(r[k0 + 1].index == i2);
                        }
                    }
                }
                assert forall|j: int, k: int| 0 <= j < k < r.len() implies ranks_before(
                    r[j],
                    r[k],
                ) by {
                    if k < pos {
                        assert(r[j] == old_r[j] && r[k] == old_r[k]);
                    } else if k == pos {
                        assert(r[j] == old_r[j]);
                    } else if j < pos {
                        assert(r[j] == old_r[j] && r[k] == old_r[k - 1]);
                    } else if j == pos {
                        assert(r[k] == old_r[k - 1]);
                        assert(pos < old_r.len());
                        assert(old_r[pos as int].score < s);
                        if k - 1 > pos {
                            assert(ranks_before(old_r[pos as int], old_r[k - 1]));
                        }
                    } else {
                        assert(r[j] == old_r[j - 1] && r[k] == old_r[k - 1]);
                    }
                }
            },
            None => {},
        }
        i += 1;
    }
    r
}

/// Fuzzy match a query against a list of candidates.
/// Returns indices and scores of matching candidates, sorted by score
/// descending; an empty query matches every candidate with score 0.
pub fn fuzzy_match(query: &str, candidates: &[&str]) -> (r: Vec<FuzzyMatch>)
    requires
        query@.len() <= MAX_QUERY_LEN,
        forall|i: int| 0 <= i < candidates@.len() ==> (#[trigger] candidates@[i])@.len() <= u32::MAX,
    ensures
        query@.len() == 0 ==> r@.len() == candidates@.len() && forall|i: int|
            0 <= i < r@.len() ==> (#[trigger] r@[i]).index == i && r@[i].score == 0,
        query@.len() > 0 ==> is_ranking(r@, scores_for(query@, candidates@)),
        plain_query(query@) ==> forall|i: int|
            0 <= i < candidates@.len() && ascii_text((#[trigger] candidates@[i])@) ==> ((exists|k: int|
                0 <= k < r@.len() && r@[k].index == i) <==> is_subsequence(
                query@,
                lowercase(candidates@[i]@),
            )),
{
    if query.is_empty() {
        let mut r: Vec<FuzzyMatch> = Vec::new();
        let mut i: usize = 0;
        while i < candidates.len()
            invariant
                i <= candidates.len(),
                r@.len() == i,
                forall|j: int| 0 <= j < i ==> (#[trigger] r@[j]).index == j && r@[j].score == 0,
            decreases candidates.len() - i,
        {
            r.push(FuzzyMatch { index: i, score: 0 });
            i += 1;
        }
        return r;
    }
    let mut scores: Vec<Option<u32>> = Vec::new();
    let mut i: usize = 0;
    while i < candidates.len()
        invariant
            i <= candidates.len(),
            query@.len() <= MAX_QUERY_LEN,
            forall|i: int| 0 <= i < candidates@.len() ==> (#[trigger] candidates@[i])@.len() <= u32::MAX,
            scores@ == scores_for(query@, candidates@).take(i as int),
            forall|j: int|
                0 <= j < i && plain_query(query@) && ascii_text((#[trigger] candidates@[j])@) ==> (
                scores@[j] is Some <==> is_subsequence(query@, lowercase(candidates@[j]@))),
        decreases candidates.len() - i,
    {
        scores.push(fuzzy_score(query, candidates[i]));
        i += 1;
        assert(scores@ =~= scores_for(query@, candidates@).take(i as int));
    }
    assert(scores_for(query@, candidates@).take(candidates.len() as int) =~= scores_for(
        query@,
        candidates@,
    ));
    let r = rank_matches(&scores);
    assert forall|i: int|
        0 <= i < candidates@.len() && plain_query(query@) && ascii_text(
            (#[trigger] candidates@[i])@,
        ) implies ((exists|k: int| 0 <= k < r@.len() && r@[k].index == i) <==> is_subsequence(
        query@,
        lowercase(candidates@[i]@),
    )) by {
        if exists|k: int| 0 <= k < r@.len() && r@[k].index == i {
            let k = choose|k: int| 0 <= k < r@.len() && r@[k].index == i;
            assert(r@[k].index < scores@.len());
        }
        if scores@[i] is Some {
            assert(scores@[i] is Some);
        }
    }
    r
}

} // verus!
