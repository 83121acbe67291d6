//! Stable top-k selection over scored candidates.

use crate::error::SearchError;
use crate::score::{is_nan, order_key, rank_key, spec_is_nan};
use vstd::prelude::*;

verus! {

/// The direction in which scores rank: similarities best-first from the
/// highest, distances best-first from the lowest.
#[derive(Clone, Copy, PartialEq, Eq, Debug)]
pub enum Ranking {
    Descending,
    Ascending,
}

/// Score `a` ranks strictly better than score `b`.
pub open spec fn outranks(ranking: Ranking, a: u32, b: u32) -> bool {
    match ranking {
        Ranking::Descending => rank_key(a) > rank_key(b),
        Ranking::Ascending => rank_key(a) < rank_key(b),
    }
}

/// Identifier `a` comes before identifier `b`: by score, and on equal scores
/// by the smaller identifier, which is the earlier one in scan order.
pub open spec fn ahead(scores: Seq<u32>, ranking: Ranking, a: usize, b: usize) -> bool {
    outranks(ranking, scores[a as int], scores[b as int]) || (rank_key(scores[a as int])
        == rank_key(scores[b as int]) && a < b)
}

/// Candidate identifiers are strictly increasing and index into `scores`.
pub open spec fn valid_candidates(cands: Seq<usize>, n: nat) -> bool {
    &&& forall|a: int, b: int| 0 <= a < b < cands.len() ==> cands[a] < cands[b]
    &&& forall|a: int| 0 <= a < cands.len() ==> cands[a] < n
}

/// No candidate has a NaN score.
pub open spec fn no_nan(scores: Seq<u32>, cands: Seq<usize>) -> bool {
    forall|a: int| 0 <= a < cands.len() ==> !spec_is_nan(#[trigger] scores[cands[a] as int])
}

/// `p` is the first candidate in scan order whose score is NaN.
pub open spec fn first_nan(scores: Seq<u32>, cands: Seq<usize>, p: usize) -> bool {
    &&& cands.contains(p)
    &&& spec_is_nan(scores[p as int])
    &&& forall|a: int|
        0 <= a < cands.len() && cands[a] < p ==> !spec_is_nan(#[trigger] scores[cands[a] as int])
}

/// `out` is the stable top-k of `cands`: `min(k, |cands|)` candidates in
/// ranking order, each ahead of every candidate left out, and a candidate is
/// left out only when there were more than `k`.
pub open spec fn is_top_k(
    scores: Seq<u32>,
    ranking: Ranking,
    cands: Seq<usize>,
    k: nat,
    out: Seq<usize>,
) -> bool {
    &&& out.len() == if k < cands.len() {
        k
    } else {
        cands.len()
    }
    &&& forall|a: int| 0 <= a < out.len() ==> #[trigger] cands.contains(out[a])
    &&& forall|a: int, b: int|
        0 <= a < b < out.len() ==> ahead(scores, ranking, #[trigger] out[a], #[trigger] out[b])
    &&& forall|c: usize|
        #[trigger] cands.contains(c) && !out.contains(c) ==> k < cands.len() && forall|a: int|
            0 <= a < out.len() ==> ahead(scores, ranking, #[trigger] out[a], c)
}

/// Ranks `c`, which comes after everything in `out`, into a top-k of the
/// candidates before it.
proof fn lemma_top_k_step(
    scores: Seq<u32>,
    ranking: Ranking,
    prev: Seq<usize>,
    c: usize,
    k: nat,
    out: Seq<usize>,
    p: int,
    next_out: Seq<usize>,
)
    requires
        is_top_k(scores, ranking, prev, k, out),
        forall|x: usize| prev.contains(x) ==> x < c,
        0 <= p <= out.len(),
        forall|a: int| 0 <= a < p ==> ahead(scores, ranking, #[trigger] out[a], c),
        forall|a: int| p <= a < out.len() ==> ahead(scores, ranking, c, #[trigger] out[a]),
        p < k ==> next_out == (if out.len() + 1 > k {
            out.insert(p, c).subrange(0, k as int)
        } else {
            out.insert(p, c)
        }),
        p >= k ==> next_out == out,
    ensures
        is_top_k(scores, ranking, prev.push(c), k, next_out),
{
    let next = prev.push(c);
    assert forall|x: usize| next.contains(x) <==> prev.contains(x) || x == c by {
        vstd::seq_lib::lemma_seq_contains_after_push(prev, c, x);
    }
    assert forall|a: int| 0 <= a < out.len() implies #[trigger] out[a] < c by {
        assert(prev.contains(out[a]));
    }
    if p < k {
        let ins = out.insert(p, c);
        out.insert_ensures(p, c);
        assert forall|a: int, b: int| 0 <= a < b < ins.len() implies ahead(
            scores,
            ranking,
            #[trigger] ins[a],
            #[trigger] ins[b],
        ) by {
            if b < p {
            } else if a < p && b == p {
            } else if a < p {
                assert(ins[b] == out[b - 1]);
            } else if a == p {
                assert(ins[b] == out[b - 1]);
            } else {
                assert(ins[a] == out[a - 1]);
                assert(ins[b] == out[b - 1]);
            }
        }
        assert forall|a: int| 0 <= a < ins.len() implies #[trigger] next.contains(ins[a]) by {
            if a < p {
                assert(prev.contains(out[a]));
            } else if a > p {
                assert(ins[a] == out[a - 1]);
                assert(prev.contains(out[a - 1]));
            }
        }
        assert forall|a: int| 0 <= a < next_out.len() implies next_out[a] == ins[a] by {}
        assert(next_out.len() == if k < next.len() {
            k
        } else {
            next.len()
        });
        assert forall|x: usize| #[trigger]
            next.contains(x) && !next_out.contains(x) implies k < next.len() && forall|a: int|
            0 <= a < next_out.len() ==> ahead(scores, ranking, #[trigger] next_out[a], x) by {
            assert(next_out[p] == c);
            assert(x != c);
            if out.contains(x) {
                let j = choose|j: int| 0 <= j < out.len() && out[j] == x;
                // x was dropped: it is the last of the inserted sequence
                if j < p {
                    assert(next_out[j] == x);
                } else {
                    assert(ins[j + 1] == x);
                    if j + 1 < next_out.len() {
                        assert(next_out[j + 1] == x);
                    }
                    assert(j + 1 >= k);
                    assert forall|a: int| 0 <= a < next_out.len() implies ahead(
                        scores,
                        ranking,
                        #[trigger] next_out[a],
                        x,
                    ) by {
                        assert(ins[a] == next_out[a]);
                    }
                }
            } else {
                assert(prev.contains(x));
                // out was full, so its last entry was dropped, and c is ahead of it
                assert(out.len() == k);
                let last = out[k - 1];
                assert(ins[k as int] == last);
                assert(ahead(scores, ranking, c, last)) by {
                    assert(ahead(scores, ranking, ins[p], ins[k as int]));
                }
                assert(ahead(scores, ranking, last, x));
                assert forall|a: int| 0 <= a < next_out.len() implies ahead(
                    scores,
                    ranking,
                    #[trigger] next_out[a],
                    x,
                ) by {
                    if a < p {
                    } else if a > p {
                        assert(next_out[a] == out[a - 1]);
                    }
                }
            }
        }
    } else {
        assert(out.len() == k);
        assert forall|a: int| 0 <= a < out.len() implies #[trigger] next.contains(out[a]) by {
            assert(prev.contains(out[a]));
        }
        assert forall|x: usize| #[trigger]
            next.contains(x) && !out.contains(x) implies k < next.len() && forall|a: int|
            0 <= a < out.len() ==> ahead(scores, ranking, #[trigger] out[a], x) by {
            if x != c {
                assert(prev.contains(x));
            }
        }
    }
}

/// Whether a score with key `a` ranks at least as well as one with key `b`.
fn not_behind(ranking: Ranking, a: u32, b: u32) -> (r: bool)
    ensures
        r == (match ranking {
            Ranking::Descending => a >= b,
            Ranking::Ascending => a <= b,
        }),
{
    match ranking {
        Ranking::Descending => a >= b,
        Ranking::Ascending => a <= b,
    }
}

/// Selects the best `k` of the candidate identifiers `cands` by their entries
/// in `scores`, best first, ties in scan order. Fails with the first
/// candidate whose score is NaN.
pub fn select_top_k(scores: &Vec<u32>, cands: &Vec<usize>, k: usize, ranking: Ranking) -> (r:
    Result<Vec<usize>, usize>)
    requires
        valid_candidates(cands@, scores@.len()),
    ensures
        match r {
            Ok(out) => no_nan(scores@, cands@) && is_top_k(scores@, ranking, cands@, k as nat, out@),
            Err(p) => first_nan(scores@, cands@, p),
        },
{
    let mut out: Vec<usize> = Vec::new();
    let mut i: usize = 0;
    while i < cands.len()
        invariant
            0 <= i <= cands.len(),
            valid_candidates(cands@, scores@.len()),
            forall|a: int| 0 <= a < i ==> !spec_is_nan(#[trigger] scores@[cands@[a] as int]),
            is_top_k(scores@, ranking, cands@.subrange(0, i as int), k as nat, out@),
        decreases cands.len() - i,
    {
        let c = cands[i];
        let s = scores[c];
        if is_nan(s) {
            assert(cands@.contains(c) && cands@[i as int] == c);
            assert forall|a: int| 0 <= a < cands@.len() && cands@[a] < c implies !spec_is_nan(
                #[trigger] scores@[cands@[a] as int],
            ) by {
                assert(a < i);
            }
            return Err(c);
        }
        let ghost prev = cands@.subrange(0, i as int);
        assert forall|x: usize| prev.contains(x) implies x < c by {
            let j = choose|j: int| 0 <= j < prev.len() && prev[j] == x;
            assert(cands@[j] == x);
        }
        assert forall|a: int| 0 <= a < out.len() implies (#[trigger] out@[a]) < scores@.len() by {
            assert(prev.contains(out@[a]));
            let j = choose|j: int| 0 <= j < prev.len() && prev[j] == out@[a];
            assert(cands@[j] == out@[a]);
        }
        let key = order_key(s);
        let mut p: usize = 0;
        while p < out.len() && not_behind(ranking, order_key(scores[out[p]]), key)
            invariant
                0 <= p <= out.len(),
                is_top_k(scores@, ranking, prev, k as nat, out@),
                forall|x: usize| prev.contains(x) ==> x < c,
                key == rank_key(scores@[c as int]),
                forall|a: int| 0 <= a < out.len() ==> (#[trigger] out@[a]) < scores@.len(),
                forall|a: int| 0 <= a < p ==> ahead(scores@, ranking, #[trigger] out@[a], c),
            decreases out.len() - p,
        {
            assert(prev.contains(out@[p as int]));
            p = p + 1;
        }
        proof {
            if p < out.len() {
                assert(prev.contains(out@[p as int]));
                assert(ahead(scores@, ranking, c, out@[p as int]));
                assert forall|a: int| p <= a < out.len() implies ahead(
                    scores@,
                    ranking,
                    c,
                    #[trigger] out@[a],
                ) by {
                    if a > p {
                        assert(ahead(scores@, ranking, out@[p as int], out@[a]));
                    }
                }
            }
        }
        let ghost old_out = out@;
        if p < k {
            out.insert(p, c);
            if out.len() > k {
                out.truncate(k);
            }
        }
        proof {
            lemma_top_k_step(scores@, ranking, prev, c, k as nat, old_out, p as int, out@);
            assert(cands@.subrange(0, i + 1) == prev.push(c));
        }
        i = i + 1;
    }
    assert(cands@.subrange(0, i as int) == cands@);
    Ok(out)
}

/// The positions below `n` that satisfy `pred`, in increasing order.
pub open spec fn positions_where(pred: spec_fn(int) -> bool, n: nat) -> Seq<usize>
    decreases n,
{
    if n == 0 {
        Seq::empty()
    } else {
        let prev = positions_where(pred, (n - 1) as nat);
        if pred(n - 1) {
            prev.push((n - 1) as usize)
        } else {
            prev
        }
    }
}

/// Every position.
pub open spec fn any_position() -> spec_fn(int) -> bool {
    |i: int| true
}

/// The positions that satisfy a predicate are valid candidates, and are
/// exactly those positions.
pub proof fn lemma_positions_where(pred: spec_fn(int) -> bool, n: nat)
    requires
        n <= usize::MAX,
    ensures
        valid_candidates(positions_where(pred, n), n),
        positions_where(pred, n).len() <= n,
        forall|x: usize| #[trigger]
            positions_where(pred, n).contains(x) <==> x < n && pred(x as int),
    decreases n,
{
    if n > 0 {
        let prev = positions_where(pred, (n - 1) as nat);
        lemma_positions_where(pred, (n - 1) as nat);
        assert forall|x: usize| #[trigger]
            positions_where(pred, n).contains(x) <==> x < n && pred(x as int) by {
            if pred(n - 1) {
                vstd::seq_lib::lemma_seq_contains_after_push(prev, (n - 1) as usize, x);
            }
        }
        if pred(n - 1) {
            let cur = prev.push((n - 1) as usize);
            assert forall|a: int| 0 <= a < cur.len() implies cur[a] < n by {
                if a < prev.len() {
                    assert(prev[a] < n - 1);
                }
            }
            assert forall|a: int, b: int| 0 <= a < b < cur.len() implies cur[a] < cur[b] by {
                if b < prev.len() {
                } else {
                    assert(prev[a] < n - 1);
                }
            }
        }
    }
}

/// Builds `positions_where(pred, n)` one position at a time.
proof fn lemma_positions_where_step(pred: spec_fn(int) -> bool, n: nat)
    requires
        n < usize::MAX,
    ensures
        positions_where(pred, n + 1) == if pred(n as int) {
            positions_where(pred, n).push(n as usize)
        } else {
            positions_where(pred, n)
        },
{
}

/// Every position below `n` is a candidate.
pub proof fn lemma_all_positions(n: nat)
    requires
        n <= usize::MAX,
    ensures
        positions_where(any_position(), n).len() == n,
    decreases n,
{
    if n > 0 {
        lemma_all_positions((n - 1) as nat);
    }
}

/// Asking for more than there is truncates to what there is: with `k` at
/// least the number of candidates, a top-k holds every candidate, never more.
pub proof fn lemma_top_k_beyond_size(
    scores: Seq<u32>,
    ranking: Ranking,
    cands: Seq<usize>,
    k: nat,
    out: Seq<usize>,
)
    requires
        is_top_k(scores, ranking, cands, k, out),
        k >= cands.len(),
    ensures
        out.len() == cands.len(),
        forall|c: usize| #[trigger] cands.contains(c) ==> out.contains(c),
{
}

/// The same for a ranking of every position below `n`: exactly `n` results.
pub proof fn lemma_rank_all_beyond_size(scores: Seq<u32>, ranking: Ranking, k: nat, m: Matches)
    requires
        scores.len() <= usize::MAX,
        ranked(scores, ranking, positions_where(any_position(), scores.len()), k, m),
        k >= scores.len(),
    ensures
        m.ids@.len() == scores.len(),
        m.scores@.len() == scores.len(),
{
    lemma_all_positions(scores.len());
}

/// Selection is deterministic: for given scores, candidates, ranking and
/// `k` there is exactly one stable top-k.
pub proof fn lemma_top_k_unique(
    scores: Seq<u32>,
    ranking: Ranking,
    cands: Seq<usize>,
    k: nat,
    a: Seq<usize>,
    b: Seq<usize>,
)
    requires
        is_top_k(scores, ranking, cands, k, a),
        is_top_k(scores, ranking, cands, k, b),
    ensures
        a == b,
{
    if a.len() > 0 {
        lemma_agree_up_to(scores, ranking, cands, k, a, b, a.len() - 1);
    }
    assert(a =~= b);
}

/// Two top-k sequences agree at every position up to `r`.
proof fn lemma_agree_up_to(
    scores: Seq<u32>,
    ranking: Ranking,
    cands: Seq<usize>,
    k: nat,
    a: Seq<usize>,
    b: Seq<usize>,
    r: int,
)
    requires
        is_top_k(scores, ranking, cands, k, a),
        is_top_k(scores, ranking, cands, k, b),
        0 <= r < a.len(),
    ensures
        forall|i: int| 0 <= i <= r ==> a[i] == b[i],
    decreases r,
{
    if r > 0 {
        lemma_agree_up_to(scores, ranking, cands, k, a, b, r - 1);
    }
    let x = a[r];
    let y = b[r];
    if x != y {
        assert(cands.contains(x));
        assert(cands.contains(y));
        // x comes after y in b, or is missing from b: either way y is ahead of x
        assert(ahead(scores, ranking, y, x)) by {
            if b.contains(x) {
                let s = choose|s: int| 0 <= s < b.len() && b[s] == x;
                if s < r {
                    assert(a[s] == b[s]);
                    assert(ahead(scores, ranking, a[s], a[r]));
                } else {
                    assert(s != r);
                }
            }
        }
        assert(ahead(scores, ranking, x, y)) by {
            if a.contains(y) {
                let t = choose|t: int| 0 <= t < a.len() && a[t] == y;
                if t < r {
                    assert(a[t] == b[t]);
                    assert(ahead(scores, ranking, b[t], b[r]));
                } else {
                    assert(t != r);
                }
            }
        }
    }
}

/// Ranked identifiers with their scores, position-aligned, best first.
pub struct Matches {
    pub ids: Vec<usize>,
    pub scores: Vec<u32>,
}

/// `m` holds the stable top-k of `cands` with each one's score.
pub open spec fn ranked(
    scores: Seq<u32>,
    ranking: Ranking,
    cands: Seq<usize>,
    k: nat,
    m: Matches,
) -> bool {
    &&& is_top_k(scores, ranking, cands, k, m.ids@)
    &&& m.scores@.len() == m.ids@.len()
    &&& forall|r: int| 0 <= r < m.ids@.len() ==> #[trigger] m.scores@[r] == scores[m.ids@[r] as int]
}

impl Matches {
    /// No matches.
    pub fn empty() -> (r: Matches)
        ensures
            r.ids@.len() == 0,
            r.scores@.len() == 0,
    {
        Matches { ids: Vec::new(), scores: Vec::new() }
    }

    /// The number of matches.
    pub fn len(&self) -> (r: usize)
        ensures
            r == self.ids@.len(),
    {
        self.ids.len()
    }
}

/// Ranks the candidates, best `k` first, and pairs each with its score;
/// a NaN score among the candidates is an error.
pub fn rank_candidates(scores: &Vec<u32>, cands: &Vec<usize>, k: usize, ranking: Ranking) -> (r:
    Result<Matches, SearchError>)
    requires
        valid_candidates(cands@, scores@.len()),
    ensures
        match r {
            Ok(m) => no_nan(scores@, cands@) && ranked(scores@, ranking, cands@, k as nat, m),
            Err(e) => exists|p: usize|
                first_nan(scores@, cands@, p) && e == (SearchError::NanScore { index: p }),
        },
{
    match select_top_k(scores, cands, k, ranking) {
        Err(p) => Err(SearchError::NanScore { index: p }),
        Ok(ids) => {
            let mut picked: Vec<u32> = Vec::new();
            let mut r: usize = 0;
            while r < ids.len()
                invariant
                    0 <= r <= ids@.len(),
                    picked@.len() == r,
                    is_top_k(scores@, ranking, cands@, k as nat, ids@),
                    valid_candidates(cands@, scores@.len()),
                    forall|j: int| 0 <= j < r ==> #[trigger] picked@[j] == scores@[ids@[j] as int],
                decreases ids@.len() - r,
            {
                assert(cands@.contains(ids@[r as int]));
                picked.push(scores[ids[r]]);
                r = r + 1;
            }
            Ok(Matches { ids, scores: picked })
        },
    }
}

/// Ranks every position of `scores`, best `k` first.
pub fn rank_all(scores: &Vec<u32>, k: usize, ranking: Ranking) -> (r: Result<Matches, SearchError>)
    ensures
        match r {
            Ok(m) => {
                &&& no_nan(scores@, positions_where(any_position(), scores@.len()))
                &&& ranked(scores@, ranking, positions_where(any_position(), scores@.len()), k as nat, m)
            },
            Err(e) => exists|p: usize|
                first_nan(scores@, positions_where(any_position(), scores@.len()), p) && e == (
                SearchError::NanScore { index: p }),
        },
{
    let mut cands: Vec<usize> = Vec::new();
    let mut i: usize = 0;
    while i < scores.len()
        invariant
            0 <= i <= scores@.len(),
            cands@ == positions_where(any_position(), i as nat),
        decreases scores@.len() - i,
    {
        proof {
            lemma_positions_where_step(any_position(), i as nat);
        }
        cands.push(i);
        i = i + 1;
    }
    proof {
        lemma_positions_where(any_position(), scores@.len());
    }
    rank_candidates(scores, &cands, k, ranking)
}

} // verus!
