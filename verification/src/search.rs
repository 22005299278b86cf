//! Symbol search.

use std::sync::Arc;

use fuzzy_matcher::skim::SkimMatcherV2;
use fuzzy_matcher::FuzzyMatcher;
use vstd::prelude::*;

use crate::symbols::Symbol;

verus! {

#[verifier::external_type_specification]
#[verifier::external_body]
pub struct ExSkimMatcherV2(SkimMatcherV2);

/// The score that the default skim matcher of `fuzzy_matcher` gives to the
/// text `choice` for the search text `pattern`, or `None` when the pattern
/// does not match.
pub uninterp spec fn skim_score(choice: Seq<char>, pattern: Seq<char>) -> Option<i64>;

/// `SkimMatcherV2::default()`: a skim matcher with the default scores and
/// smart case.
#[verifier::external_body]
fn skim_default() -> SkimMatcherV2 {
    SkimMatcherV2::default()
}

/// `FuzzyMatcher::fuzzy_match` of the skim matcher. The contract claims that,
/// for a matcher made by `skim_default`, the score depends on the two texts
/// alone, and names it `skim_score`.
#[verifier::external_body]
fn skim_fuzzy_match(matcher: &SkimMatcherV2, choice: &str, pattern: &str) -> (r: Option<i64>)
    ensures
        r == skim_score(choice@, pattern@),
{
    matcher.fuzzy_match(choice, pattern)
}

/// `Arc::clone`: another pointer to the same symbol.
#[verifier::external_body]
fn arc_clone(a: &Arc<Symbol>) -> (r: Arc<Symbol>)
    ensures
        r == *a,
{
    Arc::clone(a)
}

/// Fuzzy search over symbol names.
pub struct SearchEngine {
    matcher: SkimMatcherV2,
}

/// A symbol that a search found, with its score.
pub struct SearchResult {
    pub symbol: Arc<Symbol>,
    pub score: i64,
}

/// The symbols whose names the query matches, in their order, each with its score.
pub open spec fn scored(symbols: Seq<Arc<Symbol>>, query: Seq<char>) -> Seq<SearchResult>
    decreases symbols.len(),
{
    if symbols.len() == 0 {
        Seq::empty()
    } else {
        let rest = scored(symbols.drop_last(), query);
        match skim_score(symbols.last().name@, query) {
            Some(s) => rest.push(SearchResult { symbol: symbols.last(), score: s }),
            None => rest,
        }
    }
}

/// `out` is `inp` reordered by `perm` (`out[i]` is `inp[perm[i]]`), with
/// scores descending, and with results of equal score in their order in `inp`.
pub open spec fn sorted_by_perm(out: Seq<SearchResult>, inp: Seq<SearchResult>, perm: Seq<int>) -> bool {
    &&& out.len() == inp.len()
    &&& perm.len() == inp.len()
    &&& forall|i: int| 0 <= i < perm.len() ==> 0 <= #[trigger] perm[i] < inp.len()
    &&& forall|i: int, j: int| 0 <= i < j < perm.len() ==> #[trigger] perm[i] != #[trigger] perm[j]
    &&& forall|i: int| 0 <= i < out.len() ==> #[trigger] out[i] == inp[perm[i]]
    &&& forall|i: int, j: int| 0 <= i < j < out.len() ==> (#[trigger] out[i]).score >= (#[trigger] out[j]).score
    &&& forall|i: int, j: int|
        0 <= i < j < out.len() && (#[trigger] out[i]).score == (#[trigger] out[j]).score ==> perm[i] < perm[j]
}

/// `out` is the stable sort of `inp` by descending score.
pub open spec fn stable_sorted_desc(out: Seq<SearchResult>, inp: Seq<SearchResult>) -> bool {
    exists|perm: Seq<int>| sorted_by_perm(out, inp, perm)
}

/// The position at which a result with score `score` goes in `v`, sorted by
/// descending score, after every result whose score is at least `score`.
fn insertion_point(v: &Vec<SearchResult>, score: i64) -> (p: usize)
    requires
        forall|i: int, j: int| 0 <= i < j < v@.len() ==> (#[trigger] v@[i]).score >= (#[trigger] v@[j]).score,
    ensures
        p <= v@.len(),
        forall|i: int| 0 <= i < p ==> (#[trigger] v@[i]).score >= score,
        forall|i: int| p <= i < v@.len() ==> (#[trigger] v@[i]).score < score,
{
    let mut lo: usize = 0;
    let mut hi: usize = v.len();
    while lo < hi
        invariant
            lo <= hi <= v@.len(),
            forall|i: int, j: int| 0 <= i < j < v@.len() ==> (#[trigger] v@[i]).score >= (#[trigger] v@[j]).score,
            forall|i: int| 0 <= i < lo ==> (#[trigger] v@[i]).score >= score,
            forall|i: int| hi <= i < v@.len() ==> (#[trigger] v@[i]).score < score,
        decreases hi - lo,
    {
        let mid = lo + (hi - lo) / 2;
        if v[mid].score >= score {
            assert forall|i: int| 0 <= i < mid + 1 implies (#[trigger] v@[i]).score >= score by {
                if i < mid {
                    assert(v@[i].score >= v@[mid as int].score);
                }
            }
            lo = mid + 1;
        } else {
            assert forall|i: int| mid <= i < v@.len() implies (#[trigger] v@[i]).score < score by {
                if i > mid {
                    assert(v@[mid as int].score >= v@[i].score);
                }
            }
            hi = mid;
        }
    }
    lo
}

/// The stable sort of `v` by descending score.
fn sort_by_score_desc(v: Vec<SearchResult>) -> (r: Vec<SearchResult>)
    ensures
        stable_sorted_desc(r@, v@),
{
    let ghost inp = v@;
    let n = v.len();
    let mut out: Vec<SearchResult> = Vec::new();
    let ghost mut perm: Seq<int> = Seq::empty();
    let mut rest = v;
    // Take the results from the front in order: reverse them first.
    let mut stack: Vec<SearchResult> = Vec::new();
    while rest.len() > 0
        invariant
            stack@.len() + rest@.len() == inp.len(),
            rest@ == inp.take(rest@.len() as int),
            forall|i: int| 0 <= i < stack@.len() ==> #[trigger] stack@[i] == inp[inp.len() - 1 - i],
        decreases rest@.len(),
    {
        let x = rest.pop().unwrap();
        stack.push(x);
    }
    let mut k: usize = 0;
    while stack.len() > 0
        invariant
            k + stack@.len() == inp.len(),
            inp.len() == n,
            forall|i: int| 0 <= i < stack@.len() ==> #[trigger] stack@[i] == inp[inp.len() - 1 - i],
            sorted_by_perm(out@, inp.take(k as int), perm),
        decreases stack@.len(),
    {
        let x = stack.pop().unwrap();
        assert(x == inp[k as int]);
        let p = insertion_point(&out, x.score);
        let ghost old_out = out@;
        let ghost old_perm = perm;
        out.insert(p, x);
        proof {
            perm = perm.insert(p as int, k as int);
            let inp2 = inp.take(k + 1);
            assert(inp2 =~= inp.take(k as int).push(x));
            assert forall|i: int| 0 <= i < out@.len() implies #[trigger] out@[i] == inp2[perm[i]] by {
                if i < p {
                    assert(out@[i] == old_out[i]);
                } else if i > p {
                    assert(out@[i] == old_out[i - 1]);
                }
            }
            assert forall|i: int, j: int| 0 <= i < j < out@.len() implies (#[trigger] out@[i]).score >= (#[trigger] out@[j]).score by {
                if j < p {
                    assert(old_out[i].score >= old_out[j].score);
                } else if i > p {
                    assert(old_out[i - 1].score >= old_out[j - 1].score);
                } else if i < p && j > p {
                    assert(old_out[i].score >= old_out[j - 1].score);
                }
            }
            assert forall|i: int, j: int|
                0 <= i < j < out@.len() && (#[trigger] out@[i]).score == (#[trigger] out@[j]).score implies perm[i] < perm[j] by {
                if j < p {
                    assert(old_out[i].score == old_out[j].score);
                } else if i > p {
                    assert(old_out[i - 1].score == old_out[j - 1].score);
                } else if i < p && j > p {
                    assert(old_out[i].score >= x.score);
                    assert(old_out[j - 1].score < x.score);
                } else if j == p {
                    assert(0 <= old_perm[i] < k);
                } else {
                    assert(old_out[j - 1].score < x.score);
                }
            }
            assert forall|i: int, j: int| 0 <= i < j < perm.len() implies #[trigger] perm[i] != #[trigger] perm[j] by {
                if j < p {
                    assert(old_perm[i] != old_perm[j]);
                } else if i > p {
                    assert(old_perm[i - 1] != old_perm[j - 1]);
                } else if i < p && j > p {
                    assert(old_perm[i] != old_perm[j - 1]);
                } else if j == p {
                    assert(old_perm[i] < k);
                } else {
                    assert(old_perm[j - 1] < k);
                }
            }
            assert forall|i: int| 0 <= i < perm.len() implies 0 <= #[trigger] perm[i] < inp2.len() by {
                if i < p {
                    assert(perm[i] == old_perm[i]);
                } else if i > p {
                    assert(perm[i] == old_perm[i - 1]);
                }
            }
        }
        k += 1;
    }
    assert(inp.take(k as int) =~= inp);
    out
}

impl SearchEngine {
    /// A search engine with the default skim matcher.
    pub fn new() -> (e: Self) {
        SearchEngine { matcher: skim_default() }
    }

    /// Searches the names of `symbols` for `query`. An empty query finds
    /// nothing. Otherwise the result holds every symbol whose name the query
    /// matches, with its score, sorted by descending score; symbols of equal
    /// score keep their order.
    pub fn search(&self, query: &str, symbols: &[Arc<Symbol>]) -> (r: Vec<SearchResult>)
        ensures
            query@.len() == 0 ==> r@ == Seq::<SearchResult>::empty(),
            query@.len() != 0 ==> stable_sorted_desc(r@, scored(symbols@, query@)),
    {
        if query.is_empty() {
            return Vec::new();
        }
        let mut matched: Vec<SearchResult> = Vec::new();
        let mut i: usize = 0;
        while i < symbols.len()
            invariant
                i <= symbols@.len(),
                matched@ == scored(symbols@.take(i as int), query@),
            decreases symbols@.len() - i,
        {
            proof {
                assert(symbols@.take(i + 1).drop_last() =~= symbols@.take(i as int));
            }
            let sym = &symbols[i];
            match skim_fuzzy_match(&self.matcher, sym.name.as_str(), query) {
                Some(score) => {
                    matched.push(SearchResult { symbol: arc_clone(sym), score });
                },
                None => {},
            }
            i += 1;
        }
        assert(symbols@.take(symbols@.len() as int) =~= symbols@);
        sort_by_score_desc(matched)
    }
}

} // verus!

verus! {

impl Default for SearchEngine {
    fn default() -> (e: Self) {
        SearchEngine::new()
    }
}

proof fn lemma_scored_are_matches(symbols: Seq<Arc<Symbol>>, query: Seq<char>)
    ensures
        scored(symbols, query).len() <= symbols.len(),
        forall|i: int| 0 <= i < scored(symbols, query).len() ==> {
            let r = #[trigger] scored(symbols, query)[i];
            &&& skim_score(r.symbol.name@, query) == Some(r.score)
            &&& symbols.contains(r.symbol)
        },
    decreases symbols.len(),
{
    if symbols.len() > 0 {
        lemma_scored_are_matches(symbols.drop_last(), query);
        let rest = scored(symbols.drop_last(), query);
        assert forall|i: int| 0 <= i < scored(symbols, query).len() implies {
            let r = #[trigger] scored(symbols, query)[i];
            &&& skim_score(r.symbol.name@, query) == Some(r.score)
            &&& symbols.contains(r.symbol)
        } by {
            let r = scored(symbols, query)[i];
            if i < rest.len() {
                assert(r == rest[i]);
                let j = choose|j: int| 0 <= j < symbols.drop_last().len() && symbols.drop_last()[j] == r.symbol;
                assert(symbols[j] == r.symbol);
            } else {
                assert(symbols[symbols.len() - 1] == r.symbol);
            }
        }
    }
}

proof fn lemma_scored_complete(symbols: Seq<Arc<Symbol>>, query: Seq<char>, k: int)
    requires
        0 <= k < symbols.len(),
        skim_score(symbols[k].name@, query) is Some,
    ensures
        exists|i: int| 0 <= i < scored(symbols, query).len()
            && (#[trigger] scored(symbols, query)[i]).symbol == symbols[k]
            && scored(symbols, query)[i].score == skim_score(symbols[k].name@, query).unwrap(),
    decreases symbols.len(),
{
    let rest = scored(symbols.drop_last(), query);
    if k < symbols.len() - 1 {
        lemma_scored_complete(symbols.drop_last(), query, k);
        let i = choose|i: int| 0 <= i < rest.len() && (#[trigger] rest[i]).symbol == symbols.drop_last()[k]
            && rest[i].score == skim_score(symbols.drop_last()[k].name@, query).unwrap();
        assert(scored(symbols, query)[i] == rest[i]);
    } else {
        let i = rest.len() as int;
        assert(scored(symbols, query)[i].symbol == symbols[k]);
    }
}

/// Search results come sorted: along the results of a non-empty query the
/// scores never increase.
pub proof fn law_search_sorted(out: Seq<SearchResult>, symbols: Seq<Arc<Symbol>>, query: Seq<char>)
    requires
        stable_sorted_desc(out, scored(symbols, query)),
    ensures
        forall|i: int, j: int| 0 <= i < j < out.len() ==> (#[trigger] out[i]).score >= (#[trigger] out[j]).score,
{
}

/// Search results are exactly the matches: each result is one of the given
/// symbols, whose name the query matches with the result's score, and each
/// symbol whose name the query matches is among the results with that score.
pub proof fn law_search_exact(out: Seq<SearchResult>, symbols: Seq<Arc<Symbol>>, query: Seq<char>)
    requires
        stable_sorted_desc(out, scored(symbols, query)),
    ensures
        out.len() <= symbols.len(),
        forall|i: int| 0 <= i < out.len() ==>
            skim_score((#[trigger] out[i]).symbol.name@, query) == Some(out[i].score)
            && symbols.contains(out[i].symbol),
        forall|k: int| 0 <= k < symbols.len() && (#[trigger] skim_score(symbols[k].name@, query)) is Some ==>
            exists|i: int| 0 <= i < out.len() && (#[trigger] out[i]).symbol == symbols[k]
                && out[i].score == skim_score(symbols[k].name@, query).unwrap(),
{
    let inp = scored(symbols, query);
    let perm = choose|perm: Seq<int>| sorted_by_perm(out, inp, perm);
    lemma_scored_are_matches(symbols, query);
    assert forall|i: int| 0 <= i < out.len() implies
        skim_score((#[trigger] out[i]).symbol.name@, query) == Some(out[i].score)
        && symbols.contains(out[i].symbol) by {
        assert(out[i] == inp[perm[i]]);
    }
    assert forall|k: int| 0 <= k < symbols.len() && (#[trigger] skim_score(symbols[k].name@, query)) is Some implies
        exists|i: int| 0 <= i < out.len() && (#[trigger] out[i]).symbol == symbols[k]
            && out[i].score == skim_score(symbols[k].name@, query).unwrap() by {
        lemma_scored_complete(symbols, query, k);
        let m = choose|m: int| 0 <= m < inp.len() && (#[trigger] inp[m]).symbol == symbols[k]
            && inp[m].score == skim_score(symbols[k].name@, query).unwrap();
        // perm is a bijection onto the positions of `inp`: find the result that comes from `m`.
        lemma_perm_onto(perm, inp.len() as int, m);
        let i = choose|i: int| 0 <= i < perm.len() && perm[i] == m;
        assert(out[i] == inp[m]);
    }
}

/// A list of `n` distinct positions below `n` names every position below `n`.
proof fn lemma_perm_onto(perm: Seq<int>, n: int, m: int)
    requires
        perm.len() == n,
        0 <= m < n,
        forall|i: int| 0 <= i < perm.len() ==> 0 <= #[trigger] perm[i] < n,
        forall|i: int, j: int| 0 <= i < j < perm.len() ==> #[trigger] perm[i] != #[trigger] perm[j],
    ensures
        exists|i: int| 0 <= i < perm.len() && perm[i] == m,
{
    if !(exists|i: int| 0 <= i < perm.len() && perm[i] == m) {
        // Then `perm` maps n positions into the n - 1 values other than m.
        let s = perm.to_set();
        assert(perm.no_duplicates()) by {
            assert forall|i: int, j: int| 0 <= i < perm.len() && 0 <= j < perm.len() && i != j implies perm[i] != perm[j] by {
                if i < j {
                    assert(perm[i] != perm[j]);
                } else {
                    assert(perm[j] != perm[i]);
                }
            }
        }
        perm.unique_seq_to_set();
        let r = vstd::set_lib::set_int_range(0, n).remove(m);
        assert(s.subset_of(r)) by {
            assert forall|x: int| s.contains(x) implies r.contains(x) by {
                let i = choose|i: int| 0 <= i < perm.len() && perm[i] == x;
            }
        }
        vstd::set_lib::lemma_int_range(0, n);
        vstd::set_lib::lemma_len_subset(s, r);
        assert(false);
    }
}

/// Two stable sorts of the same results by descending score take the same
/// results to each position, up to the first `k` positions.
proof fn lemma_sorted_perms_agree(
    out1: Seq<SearchResult>,
    out2: Seq<SearchResult>,
    inp: Seq<SearchResult>,
    p: Seq<int>,
    q: Seq<int>,
    k: int,
)
    requires
        sorted_by_perm(out1, inp, p),
        sorted_by_perm(out2, inp, q),
        0 <= k <= inp.len(),
    ensures
        forall|i: int| 0 <= i < k ==> #[trigger] p[i] == q[i],
    decreases k,
{
    if k > 0 {
        let i = k - 1;
        lemma_sorted_perms_agree(out1, out2, inp, p, q, i);
        let a = p[i];
        let b = q[i];
        if a != b {
            let n = inp.len() as int;
            lemma_perm_onto(p, n, b);
            let j = choose|j: int| 0 <= j < p.len() && p[j] == b;
            if j < i {
                assert(p[j] == q[j]);
                assert(q[j] != q[i]);
            }
            assert(j > i);
            assert(out1[i].score >= out1[j].score);
            assert(out1[i] == inp[a] && out1[j] == inp[b]);
            lemma_perm_onto(q, n, a);
            let m = choose|m: int| 0 <= m < q.len() && q[m] == a;
            if m < i {
                assert(p[m] == q[m]);
                assert(p[m] != p[i]);
            }
            assert(m > i);
            assert(out2[i].score >= out2[m].score);
            assert(out2[i] == inp[b] && out2[m] == inp[a]);
            if inp[a].score == inp[b].score {
                assert(p[i] < p[j]);
                assert(q[i] < q[m]);
            }
        }
    }
}

/// The stable sort by descending score is unique: two stable sorts of the
/// same results are equal.
pub proof fn law_stable_sort_unique(out1: Seq<SearchResult>, out2: Seq<SearchResult>, inp: Seq<SearchResult>)
    requires
        stable_sorted_desc(out1, inp),
        stable_sorted_desc(out2, inp),
    ensures
        out1 == out2,
{
    let p = choose|perm: Seq<int>| sorted_by_perm(out1, inp, perm);
    let q = choose|perm: Seq<int>| sorted_by_perm(out2, inp, perm);
    lemma_sorted_perms_agree(out1, out2, inp, p, q, inp.len() as int);
    assert forall|i: int| 0 <= i < out1.len() implies out1[i] == out2[i] by {
        assert(p[i] == q[i]);
    }
    assert(out1 =~= out2);
}

} // verus!
