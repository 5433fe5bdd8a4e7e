//! A small fuzzy matcher.
//!
//! A lowercase query is scored against a lowercase candidate as a subsequence
//! match, with bonuses for prefix hits, word-boundary hits and contiguous runs.
use crate::state::AppEntry;
use crate::text::{to_chars, to_lowercase, trim};
#[allow(unused_imports)]
use crate::text::{ascii_lowered, in_ascii, lowercase, trimmed};
use crate::wrap::{add32, div32, len32, quintuple32, sub32};
#[allow(unused_imports)]
use crate::wrap::{in_range_is_exact, lemma_wrap_add, lemma_wrap_mul, quotient, wrap32};
use vstd::prelude::*;

verus! {

/// The characters of `q` stand in `c`, in order, at the positions `m`.
pub open spec fn embeds(q: Seq<char>, c: Seq<char>, m: Seq<int>) -> bool {
    &&& m.len() == q.len()
    &&& forall|k: int| 0 <= k < m.len() ==> 0 <= #[trigger] m[k] < c.len() && c[m[k]] == q[k]
    &&& forall|j: int, k: int| 0 <= j < k < m.len() ==> #[trigger] m[j] < #[trigger] m[k]
}

/// `q` is a subsequence of `c`.
pub open spec fn is_subsequence(q: Seq<char>, c: Seq<char>) -> bool {
    exists|m: Seq<int>| embeds(q, c, m)
}

/// The first position that the character number `k` may take.
pub open spec fn earliest(m: Seq<int>, k: int) -> int {
    if k <= 0 {
        0
    } else {
        m[k - 1] + 1
    }
}

/// `m` takes, for each character of `q` in turn, the first position that it finds.
pub open spec fn leftmost(q: Seq<char>, c: Seq<char>, m: Seq<int>) -> bool {
    &&& embeds(q, c, m)
    &&& forall|k: int, p: int|
        0 <= k < m.len() && earliest(m, k) <= p < m[k] ==> #[trigger] c[p] != #[trigger] q[k]
}

/// Position `p` is the start of the candidate or of a word in it.
pub open spec fn at_boundary(c: Seq<char>, p: int) -> bool {
    p == 0 || {
        let b = c[p - 1];
        b == ' ' || b == '-' || b == '_' || b == '.' || b == '/' || b == '\\' || b == '('
    }
}

/// How many positions before that of character `k` are contiguous with it.
pub open spec fn run(m: Seq<int>, k: int) -> int
    decreases k,
{
    if 0 < k && m[k] == m[k - 1] + 1 {
        run(m, k - 1) + 1
    } else {
        0
    }
}

/// What the match of character `k` is worth.
pub open spec fn worth(c: Seq<char>, m: Seq<int>, k: int) -> int {
    10 + (if at_boundary(c, m[k]) {
        15int
    } else {
        0
    }) + (if m[k] == 0 {
        10int
    } else {
        0
    }) + 5 * run(m, k)
}

/// What the matches of the first `n` characters are worth.
pub open spec fn total(c: Seq<char>, m: Seq<int>, n: int) -> int
    decreases n,
{
    if n <= 0 {
        0
    } else {
        total(c, m, n - 1) + worth(c, m, n - 1)
    }
}

/// The score of the match `m` in `c`, in 32-bit arithmetic: a quarter of the
/// candidate's length is taken off.
pub open spec fn match_score(c: Seq<char>, m: Seq<int>) -> i32 {
    wrap32(total(c, m, m.len() as int) - quotient(wrap32(c.len() as int) as int, 4))
}

/// The score of `c` for `q`: nothing if `q` is not a subsequence of `c`, and else
/// that of the leftmost match. An empty query scores 0.
pub open spec fn score_of(q: Seq<char>, c: Seq<char>) -> Option<i32> {
    if q.len() == 0 {
        Some(0i32)
    } else if is_subsequence(q, c) {
        Some(match_score(c, choose|m: Seq<int>| leftmost(q, c, m)))
    } else {
        None
    }
}

/// No match is ahead of the leftmost one.
proof fn lemma_leftmost_first(q: Seq<char>, c: Seq<char>, m: Seq<int>, o: Seq<int>, n: int, k: int)
    requires
        embeds(q, c, o),
        0 <= k < n <= m.len() <= q.len(),
        n <= q.len(),
        forall|j: int, p: int|
            0 <= j < n && earliest(m, j) <= p < m[j] ==> #[trigger] c[p] != #[trigger] q[j],
    ensures
        m[k] <= o[k],
    decreases k,
{
    assert(0 <= o[k] < c.len() && c[o[k]] == q[k]);
    if k > 0 {
        lemma_leftmost_first(q, c, m, o, n, k - 1);
        assert(o[k - 1] < o[k]);
    }
    if o[k] < m[k] {
        assert(earliest(m, k) <= o[k]);
        assert(c[o[k]] != q[k]);
    }
}

/// There is at most one leftmost match.
pub proof fn leftmost_is_unique(q: Seq<char>, c: Seq<char>, a: Seq<int>, b: Seq<int>)
    requires
        leftmost(q, c, a),
        leftmost(q, c, b),
    ensures
        a == b,
{
    assert forall|k: int| 0 <= k < a.len() implies a[k] == b[k] by {
        lemma_leftmost_first(q, c, a, b, a.len() as int, k);
        lemma_leftmost_first(q, c, b, a, a.len() as int, k);
    }
    assert(a =~= b);
}

/// Matches of a prefix are worth the same, whatever comes after.
proof fn lemma_total_prefix(c: Seq<char>, m: Seq<int>, p: int, n: int)
    requires
        0 <= n <= m.len(),
    ensures
        total(c, m.push(p), n) == total(c, m, n),
        forall|k: int| 0 <= k < n ==> #[trigger] run(m.push(p), k) == run(m, k),
    decreases n,
{
    if n > 0 {
        lemma_total_prefix(c, m, p, n - 1);
        lemma_run_prefix(m, p, n - 1);
        assert(m.push(p)[n - 1] == m[n - 1]);
    }
}

proof fn lemma_run_prefix(m: Seq<int>, p: int, k: int)
    requires
        0 <= k < m.len(),
    ensures
        run(m.push(p), k) == run(m, k),
    decreases k,
{
    if k > 0 {
        lemma_run_prefix(m, p, k - 1);
        assert(m.push(p)[k] == m[k] && m.push(p)[k - 1] == m[k - 1]);
    }
}

/// What a match at position `p` is worth after a run of length `streak`.
fn worth_of(c: &Vec<char>, p: usize, streak: i32, Ghost(m): Ghost<Seq<int>>, Ghost(k): Ghost<int>) -> (r: i32)
    requires
        p < c@.len(),
        m[k] == p,
        streak == wrap32(run(m, k)),
    ensures
        r == wrap32(worth(c@, m, k)),
{
    let mut s: i32 = 10;
    let boundary = p == 0 || {
        let b = c[p - 1];
        b == ' ' || b == '-' || b == '_' || b == '.' || b == '/' || b == '\\' || b == '('
    };
    if boundary {
        s = s + 15;
    }
    if p == 0 {
        s = s + 10;
    }
    proof {
        lemma_wrap_mul(run(m, k), 5);
        lemma_wrap_add(s as int, 5 * run(m, k));
        assert(worth(c@, m, k) == s + 5 * run(m, k));
    }
    add32(s, quintuple32(streak))
}

/// The score of `candidate` for `query`; higher is better, and `None` means no match.
pub fn score(query: &str, candidate: &str) -> (r: Option<i32>)
    ensures
        r == score_of(query@, candidate@),
{
    if query.is_empty() {
        return Some(0);
    }
    let q = to_chars(query);
    let c = to_chars(candidate);
    let mut qi: usize = 0;
    let mut sum: i32 = 0;
    let mut streak: i32 = 0;
    let mut prev: Option<usize> = None;
    let mut ci: usize = 0;
    let ghost mut m: Seq<int> = Seq::empty();
    proof {
        in_range_is_exact(0);
    }
    while ci < c.len() && qi < q.len()
        invariant
            q@ == query@,
            c@ == candidate@,
            ci <= c@.len(),
            qi <= q@.len(),
            m.len() == qi,
            embeds(q@.take(qi as int), c@, m),
            forall|k: int| 0 <= k < qi ==> #[trigger] m[k] < ci,
            forall|k: int, p: int|
                0 <= k < qi && earliest(m, k) <= p < m[k] ==> #[trigger] c@[p] != #[trigger] q@[k],
            qi < q@.len() ==> forall|p: int|
                earliest(m, qi as int) <= p < ci ==> #[trigger] c@[p] != q@[qi as int],
            earliest(m, qi as int) <= ci,
            prev is None <==> qi == 0,
            prev matches Some(p) ==> p == m[qi - 1],
            sum == wrap32(total(c@, m, qi as int)),
            qi > 0 ==> streak == wrap32(run(m, qi - 1)),
        decreases c@.len() - ci,
    {
        let ch = c[ci];
        if ch == q[qi] {
            let ghost m2 = m.push(ci as int);
            proof {
                lemma_total_prefix(c@, m, ci as int, qi as int);
                if qi > 0 {
                    lemma_run_prefix(m, ci as int, qi - 1);
                }
            }
            let contiguous = match prev {
                Some(p) => p + 1 == ci,
                None => false,
            };
            if contiguous {
                proof {
                    lemma_wrap_add(run(m, qi - 1), 1);
                }
                streak = add32(streak, 1);
            } else {
                streak = 0;
                proof {
                    in_range_is_exact(0);
                }
            }
            assert(streak == wrap32(run(m2, qi as int)));
            let s: i32 = worth_of(&c, ci, streak, Ghost(m2), Ghost(qi as int));
            proof {
                lemma_wrap_add(total(c@, m, qi as int), s as int);
                lemma_wrap_add(total(c@, m, qi as int), worth(c@, m2, qi as int));
            }
            sum = add32(sum, s);
            proof {
                assert(q@.take(qi + 1) =~= q@.take(qi as int).push(q@[qi as int]));
                m = m2;
            }
            prev = Some(ci);
            qi = qi + 1;
        }
        ci = ci + 1;
    }
    if qi != q.len() {
        proof {
            if is_subsequence(q@, c@) {
                let o = choose|o: Seq<int>| embeds(q@, c@, o);
                if qi > 0 {
                    lemma_leftmost_first(q@, c@, m, o, qi as int, qi - 1);
                }
                assert(0 <= o[qi as int] < c@.len() && c@[o[qi as int]] == q@[qi as int]);
                if qi > 0 {
                    assert(o[qi - 1] < o[qi as int]);
                }
                assert(c@[o[qi as int]] != q@[qi as int]);
            }
        }
        return None;
    }
    let penalty: i32 = div32(len32(c.len()), 4);
    proof {
        assert(q@.take(qi as int) =~= q@);
        assert(leftmost(q@, c@, m));
        let chosen = choose|o: Seq<int>| leftmost(q@, c@, o);
        leftmost_is_unique(q@, c@, m, chosen);
        lemma_wrap_add(total(c@, m, qi as int), penalty as int);
    }
    Some(sub32(sum, penalty))
}

proof fn lemma_total_bound(c: Seq<char>, m: Seq<int>, n: int)
    requires
        0 <= n,
    ensures
        10 * n <= total(c, m, n),
        2 * total(c, m, n) <= 70 * n + 5 * (n * n),
    decreases n,
{
    if n > 0 {
        lemma_total_bound(c, m, n - 1);
        lemma_run_bound(m, n - 1);
        assert(n * n == (n - 1) * (n - 1) + 2 * (n - 1) + 1) by (nonlinear_arith);
    }
}

proof fn lemma_run_bound(m: Seq<int>, k: int)
    requires
        0 <= k,
    ensures
        0 <= run(m, k) <= k,
    decreases k,
{
    if k > 0 {
        lemma_run_bound(m, k - 1);
    }
}

/// Of a query of at most 29 000 characters and a candidate of less than 2^31 the score is
/// exact: what the leftmost match is worth, less a quarter of the candidate's length.
pub proof fn score_is_exact(q: Seq<char>, c: Seq<char>, m: Seq<int>)
    requires
        leftmost(q, c, m),
        0 < q.len() <= 29_000,
        c.len() <= i32::MAX,
    ensures
        score_of(q, c) is Some,
        score_of(q, c)->0 == total(c, m, m.len() as int) - c.len() as int / 4,
{
    let n = m.len() as int;
    assert(embeds(q, c, m));
    let chosen = choose|o: Seq<int>| leftmost(q, c, o);
    leftmost_is_unique(q, c, m, chosen);
    lemma_total_bound(c, m, n);
    assert(n * n <= 29_000 * 29_000) by (nonlinear_arith)
        requires
            0 <= n <= 29_000,
    ;
    in_range_is_exact(c.len() as int);
    in_range_is_exact(total(c, m, n) - c.len() as int / 4);
}

/// Shorter candidates are preferred: more text after a match does not raise its score.
pub proof fn longer_candidate_scores_no_higher(q: Seq<char>, c: Seq<char>, m: Seq<int>, more: Seq<char>)
    requires
        leftmost(q, c, m),
        0 < q.len() <= 29_000,
        (c + more).len() <= i32::MAX,
    ensures
        score_of(q, c) is Some,
        score_of(q, c + more) is Some,
        score_of(q, c + more)->0 <= score_of(q, c)->0,
{
    let d = c + more;
    assert forall|k: int| 0 <= k < m.len() implies 0 <= #[trigger] m[k] < d.len() && d[m[k]] == q[k] by {
        assert(0 <= m[k] < c.len() && c[m[k]] == q[k]);
    }
    assert forall|k: int, p: int|
        0 <= k < m.len() && earliest(m, k) <= p < m[k] implies #[trigger] d[p] != #[trigger] q[k] by {
        assert(0 <= m[k] < c.len());
        if k > 0 {
            assert(0 <= m[k - 1] < c.len());
        }
        assert(d[p] == c[p]);
    }
    assert(leftmost(q, d, m));
    lemma_total_of_extension(c, more, m, m.len() as int);
    score_is_exact(q, c, m);
    score_is_exact(q, d, m);
}

proof fn lemma_total_of_extension(c: Seq<char>, more: Seq<char>, m: Seq<int>, n: int)
    requires
        0 <= n <= m.len(),
        forall|k: int| 0 <= k < m.len() ==> 0 <= #[trigger] m[k] < c.len(),
    ensures
        total(c + more, m, n) == total(c, m, n),
    decreases n,
{
    if n > 0 {
        lemma_total_of_extension(c, more, m, n - 1);
        let p = m[n - 1];
        if p > 0 {
            assert((c + more)[p - 1] == c[p - 1]);
        }
    }
}

/// A candidate has a score exactly if the characters of the query stand in it, in order. An
/// empty query scores 0.
pub proof fn matches_are_subsequences(q: Seq<char>, c: Seq<char>)
    ensures
        q.len() == 0 ==> score_of(q, c) == Some(0i32),
        score_of(q, c) is Some <==> exists|m: Seq<int>|
            {
                &&& m.len() == q.len()
                &&& forall|k: int|
                    0 <= k < m.len() ==> 0 <= #[trigger] m[k] < c.len() && c[m[k]] == q[k]
                &&& forall|j: int, k: int|
                    0 <= j < k < m.len() ==> #[trigger] m[j] < #[trigger] m[k]
            },
{
    if q.len() == 0 {
        let m = Seq::<int>::empty();
        assert(m.len() == q.len());
    } else if is_subsequence(q, c) {
        let m = choose|m: Seq<int>| embeds(q, c, m);
        assert(m.len() == q.len());
    } else {
        assert forall|m: Seq<int>|
            !({
                &&& m.len() == q.len()
                &&& forall|k: int|
                    0 <= k < m.len() ==> 0 <= #[trigger] m[k] < c.len() && c[m[k]] == q[k]
                &&& forall|j: int, k: int|
                    0 <= j < k < m.len() ==> #[trigger] m[j] < #[trigger] m[k]
            }) by {
            assert(!embeds(q, c, m));
        }
    }
}

/// The score of a single character, first met at position `p`: 10, another 15 at the start
/// of the candidate or after one of ` -_./\(`, another 10 at the start of the candidate,
/// less a quarter of the candidate's length.
pub proof fn one_character_scores(ch: char, c: Seq<char>, p: int)
    requires
        0 <= p < c.len() <= i32::MAX,
        c[p] == ch,
        forall|j: int| 0 <= j < p ==> #[trigger] c[j] != ch,
    ensures
        score_of(seq![ch], c) is Some,
        score_of(seq![ch], c)->0 == 10 + (if p == 0 {
            25int
        } else if c[p - 1] == ' ' || c[p - 1] == '-' || c[p - 1] == '_' || c[p - 1] == '.' || c[p
            - 1] == '/' || c[p - 1] == '\\' || c[p - 1] == '(' {
            15int
        } else {
            0int
        }) - c.len() as int / 4,
{
    let m = seq![p];
    assert(leftmost(seq![ch], c, m));
    score_is_exact(seq![ch], c, m);
    reveal_with_fuel(total, 2);
    assert(run(m, 0) == 0);
}

/// What one more character of the query adds to the score, where the characters before it
/// are first met at the positions `m` and it is first met after them at `p`: 10, another 15
/// after one of ` -_./\(`, and another 5 for every character of the run that it continues.
pub proof fn next_character_adds(
    q: Seq<char>,
    c: Seq<char>,
    m: Seq<int>,
    ch: char,
    p: int,
    streak: int,
)
    requires
        0 < q.len() < 29_000,
        c.len() <= i32::MAX,
        m.len() == q.len(),
        forall|k: int| 0 <= k < m.len() ==> 0 <= #[trigger] m[k] < c.len() && c[m[k]] == q[k],
        forall|j: int, k: int| 0 <= j < k < m.len() ==> #[trigger] m[j] < #[trigger] m[k],
        forall|j: int| 0 <= j < m[0] ==> #[trigger] c[j] != q[0],
        forall|k: int, j: int|
            0 < k < m.len() && m[k - 1] < j < m[k] ==> #[trigger] c[j] != #[trigger] q[k],
        m.last() < p < c.len(),
        c[p] == ch,
        forall|j: int| m.last() < j < p ==> #[trigger] c[j] != ch,
        0 <= streak <= m.len(),
        forall|k: int| m.len() - streak <= k < m.len() ==> #[trigger] m[k] == p - (m.len() - k),
        streak < m.len() ==> m[m.len() - streak - 1] != p - streak - 1,
    ensures
        score_of(q, c) is Some,
        score_of(q.push(ch), c) is Some,
        score_of(q.push(ch), c)->0 == score_of(q, c)->0 + 10 + (if c[p - 1] == ' ' || c[p - 1]
            == '-' || c[p - 1] == '_' || c[p - 1] == '.' || c[p - 1] == '/' || c[p - 1] == '\\'
            || c[p - 1] == '(' {
            15int
        } else {
            0int
        }) + 5 * streak,
{
    let n = m.len() as int;
    assert forall|k: int, j: int|
        0 <= k < m.len() && earliest(m, k) <= j < m[k] implies #[trigger] c[j] != #[trigger] q[k] by {
        if k > 0 {
            assert(m[k - 1] < j);
        }
    }
    assert(leftmost(q, c, m));
    let q2 = q.push(ch);
    let m2 = m.push(p);
    assert forall|j: int, k: int| 0 <= j < k < m2.len() implies #[trigger] m2[j] < #[trigger] m2[k] by {
        if k == n {
            assert(m[j] <= m.last());
        }
    }
    assert forall|k: int| 0 <= k < m2.len() implies 0 <= #[trigger] m2[k] < c.len() && c[m2[k]]
        == q2[k] by {
        if k < n {
            assert(0 <= m[k] < c.len() && c[m[k]] == q[k]);
        }
    }
    assert forall|k: int, j: int|
        0 <= k < m2.len() && earliest(m2, k) <= j < m2[k] implies #[trigger] c[j] != #[trigger] q2[k] by {
        if k < n {
            assert(earliest(m2, k) == earliest(m, k));
            assert(c[j] != q[k]);
        } else {
            assert(m.last() < j);
        }
    }
    assert(leftmost(q2, c, m2));
    score_is_exact(q, c, m);
    score_is_exact(q2, c, m2);
    lemma_total_prefix(c, m, p, n);
    lemma_run_length(m2, n, streak);
    assert(0 <= m.last());
}

proof fn lemma_run_length(m: Seq<int>, k: int, streak: int)
    requires
        0 <= streak <= k < m.len(),
        forall|j: int| k - streak <= j < k ==> #[trigger] m[j] == m[k] - (k - j),
        streak < k ==> m[k - streak - 1] != m[k] - streak - 1,
    ensures
        run(m, k) == streak,
    decreases streak,
{
    if streak > 0 {
        assert(m[k - 1] == m[k] - 1);
        lemma_run_length(m, k - 1, streak - 1);
    }
}

/// The lowercase names of a list of apps.
pub open spec fn lower_names(apps: Seq<AppEntry>) -> Seq<Seq<char>> {
    apps.map_values(|a: AppEntry| a.lower_name@)
}

/// The length of a text in UTF-8.
pub open spec fn byte_len(s: Seq<char>) -> usize {
    vstd::utf8::encode_utf8(s).len() as usize
}

/// App `i` ranks before app `j`: by the higher score, then by the shorter name,
/// then by the place in the list.
pub open spec fn ranks_before(q: Seq<char>, names: Seq<Seq<char>>, i: int, j: int) -> bool {
    let si = score_of(q, names[i])->0;
    let sj = score_of(q, names[j])->0;
    let li = byte_len(names[i]);
    let lj = byte_len(names[j]);
    si > sj || (si == sj && (li < lj || (li == lj && i < j)))
}

/// `r` holds the indices of the names that `q` matches, and no others, best first.
pub open spec fn is_ranking(q: Seq<char>, names: Seq<Seq<char>>, r: Seq<usize>) -> bool {
    &&& forall|a: int|
        0 <= a < r.len() ==> #[trigger] r[a] < names.len() && score_of(q, names[r[a] as int]) is Some
    &&& forall|i: usize|
        i < names.len() && score_of(q, #[trigger] names[i as int]) is Some ==> r.contains(i)
    &&& forall|a: int, b: int|
        0 <= a < b < r.len() ==> ranks_before(q, names, #[trigger] r[a] as int, #[trigger] r[b] as int)
}

/// The order in which apps are listed for the lowercase query `q`: best first, or,
/// with an empty query, the order that they have.
pub open spec fn ranking(q: Seq<char>, names: Seq<Seq<char>>) -> Seq<usize> {
    if q.len() == 0 {
        Seq::new(names.len(), |i: int| i as usize)
    } else {
        choose|r: Seq<usize>| is_ranking(q, names, r)
    }
}

/// There is at most one ranking.
pub proof fn ranking_is_unique(q: Seq<char>, names: Seq<Seq<char>>, a: Seq<usize>, b: Seq<usize>)
    requires
        is_ranking(q, names, a),
        is_ranking(q, names, b),
    ensures
        a == b,
{
    lemma_ranking_agrees(q, names, a, b, 0);
    lemma_ranking_agrees(q, names, b, a, 0);
    assert forall|k: int| 0 <= k < a.len() && k < b.len() implies a[k] == b[k] by {
        lemma_ranking_agrees(q, names, a, b, k);
    }
    if a.len() < b.len() {
        let x = b[a.len() as int];
        assert(score_of(q, names[x as int]) is Some);
        assert(a.contains(x));
        let k = choose|k: int| 0 <= k < a.len() && a[k] == x;
        assert(b[k] == x);
        assert(ranks_before(q, names, b[k] as int, b[a.len() as int] as int));
    }
    if b.len() < a.len() {
        let x = a[b.len() as int];
        assert(score_of(q, names[x as int]) is Some);
        assert(b.contains(x));
        let k = choose|k: int| 0 <= k < b.len() && b[k] == x;
        assert(a[k] == x);
        assert(ranks_before(q, names, a[k] as int, a[b.len() as int] as int));
    }
    assert(a =~= b);
}

/// Two rankings agree up to and at every place that both have.
proof fn lemma_ranking_agrees(
    q: Seq<char>,
    names: Seq<Seq<char>>,
    a: Seq<usize>,
    b: Seq<usize>,
    k: int,
)
    requires
        is_ranking(q, names, a),
        is_ranking(q, names, b),
        0 <= k,
    ensures
        forall|j: int| 0 <= j <= k && j < a.len() && j < b.len() ==> #[trigger] a[j] == b[j],
    decreases k,
{
    if k > 0 {
        lemma_ranking_agrees(q, names, a, b, k - 1);
    }
    if k < a.len() && k < b.len() && a[k] != b[k] {
        let x = a[k];
        let y = b[k];
        assert(score_of(q, names[x as int]) is Some);
        assert(score_of(q, names[y as int]) is Some);
        assert(b.contains(x));
        assert(a.contains(y));
        let i = choose|i: int| 0 <= i < b.len() && b[i] == x;
        let j = choose|j: int| 0 <= j < a.len() && a[j] == y;
        if i < k {
            assert(a[i] == b[i]);
            assert(ranks_before(q, names, a[i] as int, a[k] as int));
        }
        if j < k {
            assert(a[j] == b[j]);
            assert(ranks_before(q, names, b[j] as int, b[k] as int));
        }
        assert(i > k && j > k);
        assert(ranks_before(q, names, b[k] as int, b[i] as int));
        assert(ranks_before(q, names, a[k] as int, a[j] as int));
    }
}

/// The better match ranks first, whatever the lengths of the names: of two listed apps, the
/// one with the higher score stands before the other.
pub proof fn better_match_ranks_first(
    q: Seq<char>,
    names: Seq<Seq<char>>,
    r: Seq<usize>,
    a: int,
    b: int,
)
    requires
        is_ranking(q, names, r),
        0 <= a < r.len(),
        0 <= b < r.len(),
        score_of(q, names[r[a] as int])->0 > score_of(q, names[r[b] as int])->0,
    ensures
        a < b,
{
    if b < a {
        assert(ranks_before(q, names, r[b] as int, r[a] as int));
    }
}

/// Of two listed apps with the same score, the one whose name takes fewer bytes stands
/// first, and of two such names of one length, the one that comes first in the list.
pub proof fn equal_matches_rank_by_length_then_place(
    q: Seq<char>,
    names: Seq<Seq<char>>,
    r: Seq<usize>,
    a: int,
    b: int,
)
    requires
        is_ranking(q, names, r),
        0 <= a < r.len(),
        0 <= b < r.len(),
        score_of(q, names[r[a] as int]) == score_of(q, names[r[b] as int]),
        vstd::utf8::encode_utf8(names[r[a] as int]).len() <= usize::MAX,
        vstd::utf8::encode_utf8(names[r[b] as int]).len() <= usize::MAX,
    ensures
        vstd::utf8::encode_utf8(names[r[a] as int]).len() < vstd::utf8::encode_utf8(
            names[r[b] as int],
        ).len() ==> a < b,
        vstd::utf8::encode_utf8(names[r[a] as int]).len() == vstd::utf8::encode_utf8(
            names[r[b] as int],
        ).len() && r[a] < r[b] ==> a < b,
{
    if b < a {
        assert(ranks_before(q, names, r[b] as int, r[a] as int));
    }
}

/// Exactly the apps whose names hold the characters of the query, in order, are listed, each
/// once.
pub proof fn every_match_is_listed_once(
    q: Seq<char>,
    names: Seq<Seq<char>>,
    r: Seq<usize>,
    i: usize,
)
    requires
        q.len() > 0,
        is_ranking(q, names, r),
        i < names.len(),
    ensures
        r.contains(i) <==> exists|m: Seq<int>|
            {
                &&& m.len() == q.len()
                &&& forall|k: int|
                    0 <= k < m.len() ==> 0 <= #[trigger] m[k] < names[i as int].len()
                        && names[i as int][m[k]] == q[k]
                &&& forall|j: int, k: int|
                    0 <= j < k < m.len() ==> #[trigger] m[j] < #[trigger] m[k]
            },
        forall|a: int, b: int|
            0 <= a < b < r.len() ==> #[trigger] r[a] != #[trigger] r[b],
{
    let c = names[i as int];
    matches_are_subsequences(q, c);
    if r.contains(i) {
        let a = choose|a: int| 0 <= a < r.len() && r[a] == i;
        assert(score_of(q, names[r[a] as int]) is Some);
    }
    assert forall|a: int, b: int| 0 <= a < b < r.len() implies #[trigger] r[a] != #[trigger] r[b] by {
        assert(ranks_before(q, names, r[a] as int, r[b] as int));
    }
}

/// With an empty query every app is listed, in the order of the list.
pub proof fn empty_query_keeps_the_list(names: Seq<Seq<char>>, i: int)
    requires
        0 <= i < names.len() <= usize::MAX,
    ensures
        ranking(Seq::empty(), names).len() == names.len(),
        ranking(Seq::empty(), names)[i] == i,
{
}

/// A match with what it is ranked by.
struct Scored {
    score: i32,
    len: usize,
    index: usize,
}

impl Scored {
    /// The score and length are those of the name at the index.
    spec fn valid(self, q: Seq<char>, names: Seq<Seq<char>>) -> bool {
        &&& self.index < names.len()
        &&& score_of(q, names[self.index as int]) == Some(self.score)
        &&& byte_len(names[self.index as int]) == self.len
    }

    fn before(&self, other: &Scored) -> (r: bool)
        ensures
            forall|q: Seq<char>, names: Seq<Seq<char>>|
                #![trigger self.valid(q, names), other.valid(q, names)]
                self.valid(q, names) && other.valid(q, names) ==> r == ranks_before(
                    q,
                    names,
                    self.index as int,
                    other.index as int,
                ),
    {
        self.score > other.score || (self.score == other.score && (self.len < other.len || (self.len
            == other.len && self.index < other.index)))
    }
}

/// The indices of the apps that the lowercase query `q` matches, best first. With an
/// empty query the order of the list is kept.
pub fn rank_lowered(q: &str, apps: &[AppEntry]) -> (r: Vec<usize>)
    ensures
        r@ == ranking(q@, lower_names(apps@)),
        q@.len() > 0 ==> is_ranking(q@, lower_names(apps@), r@),
        q@.len() > 0 ==> forall|a: int, b: int|
            0 <= a < b < r@.len() ==> score_of(q@, apps@[#[trigger] r@[a] as int].lower_name@)->0
                >= score_of(q@, apps@[#[trigger] r@[b] as int].lower_name@)->0,
        r@.len() <= apps@.len(),
        forall|k: int| 0 <= k < r@.len() ==> #[trigger] r@[k] < apps@.len(),
{
    let ghost names = lower_names(apps@);
    let n: usize = apps.len();
    let mut r: Vec<usize> = Vec::new();
    if q.is_empty() {
        let mut i: usize = 0;
        while i < n
            invariant
                i <= n,
                n == names.len(),
                r@ == Seq::new(i as nat, |k: int| k as usize),
            decreases n - i,
        {
            r.push(i);
            i = i + 1;
        }
        return r;
    }
    let mut list: Vec<Scored> = Vec::new();
    let mut i: usize = 0;
    while i < n
        invariant
            i <= n,
            n == apps@.len(),
            names == lower_names(apps@),
            list@.len() <= i,
            forall|a: int| 0 <= a < list@.len() ==> (#[trigger] list@[a]).valid(q@, names) && list@[a].index < i,
            forall|k: usize|
                k < i && score_of(q@, #[trigger] names[k as int]) is Some ==> exists|a: int|
                    0 <= a < list@.len() && (#[trigger] list@[a]).index == k,
            forall|a: int, b: int|
                0 <= a < b < list@.len() ==> ranks_before(
                    q@,
                    names,
                    (#[trigger] list@[a]).index as int,
                    (#[trigger] list@[b]).index as int,
                ),
        decreases n - i,
    {
        let name = apps[i].lower_name.as_str();
        assert(names[i as int] == name@);
        if let Some(s) = score(q, name) {
            let x = Scored { score: s, len: name.len(), index: i };
            assert(x.valid(q@, names));
            let mut lo: usize = 0;
            let mut hi: usize = list.len();
            while lo < hi
                invariant
                    lo <= hi <= list@.len(),
                    x.valid(q@, names),
                    forall|a: int| 0 <= a < list@.len() ==> (#[trigger] list@[a]).valid(q@, names) && list@[a].index < x.index,
                    forall|a: int, b: int|
                        0 <= a < b < list@.len() ==> ranks_before(
                            q@,
                            names,
                            (#[trigger] list@[a]).index as int,
                            (#[trigger] list@[b]).index as int,
                        ),
                    forall|a: int|
                        0 <= a < lo ==> ranks_before(
                            q@,
                            names,
                            (#[trigger] list@[a]).index as int,
                            x.index as int,
                        ),
                    forall|a: int|
                        hi <= a < list@.len() ==> ranks_before(
                            q@,
                            names,
                            x.index as int,
                            (#[trigger] list@[a]).index as int,
                        ),
                decreases hi - lo,
            {
                let mid: usize = lo + (hi - lo) / 2;
                assert(list@[mid as int].valid(q@, names));
                if list[mid].before(&x) {
                    lo = mid + 1;
                } else {
                    hi = mid;
                }
            }
            let ghost old_list = list@;
            let ghost added = x;
            list.insert(lo, x);
            proof {
                assert(list@[lo as int] == added);
                assert forall|k: usize|
                    k < i + 1 && score_of(q@, #[trigger] names[k as int]) is Some implies exists|
                    a: int,
                | 0 <= a < list@.len() && (#[trigger] list@[a]).index == k by {
                    if k == i {
                        assert(list@[lo as int].index == k);
                    } else {
                        let a = choose|a: int|
                            0 <= a < old_list.len() && (#[trigger] old_list[a]).index == k;
                        if a < lo {
                            assert(list@[a].index == k);
                        } else {
                            assert(list@[a + 1].index == k);
                        }
                    }
                }
            }
        }
        i = i + 1;
    }
    let mut a: usize = 0;
    while a < list.len()
        invariant
            a <= list@.len(),
            r@.len() == a,
            forall|k: int| 0 <= k < a ==> #[trigger] r@[k] == list@[k].index,
        decreases list@.len() - a,
    {
        r.push(list[a].index);
        a = a + 1;
    }
    proof {
        assert forall|i: usize|
            i < names.len() && score_of(q@, #[trigger] names[i as int]) is Some implies r@.contains(
            i,
        ) by {
            let a = choose|a: int| 0 <= a < list@.len() && (#[trigger] list@[a]).index == i;
            assert(r@[a] == i);
        }
        assert(is_ranking(q@, names, r@));
        ranking_is_unique(q@, names, r@, ranking(q@, names));
        assert forall|a: int, b: int| 0 <= a < b < r@.len() implies score_of(
            q@,
            apps@[#[trigger] r@[a] as int].lower_name@,
        )->0 >= score_of(q@, apps@[#[trigger] r@[b] as int].lower_name@)->0 by {
            assert(names[r@[a] as int] == apps@[r@[a] as int].lower_name@);
            assert(names[r@[b] as int] == apps@[r@[b] as int].lower_name@);
            if score_of(q@, names[r@[b] as int])->0 > score_of(q@, names[r@[a] as int])->0 {
                better_match_ranks_first(q@, names, r@, b, a);
            }
        }
    }
    r
}

/// The indices of `apps` in the order in which they are listed for `query`: best
/// match first. With a blank query the order of the list is kept.
pub fn rank(query: &str, apps: &[AppEntry]) -> (r: Vec<usize>)
    ensures
        r@ == ranking(lowercase(trimmed(query@)), lower_names(apps@)),
        lowercase(trimmed(query@)).len() > 0 ==> is_ranking(
            lowercase(trimmed(query@)),
            lower_names(apps@),
            r@,
        ),
        lowercase(trimmed(query@)).len() > 0 ==> forall|a: int, b: int|
            0 <= a < b < r@.len() ==> score_of(
                lowercase(trimmed(query@)),
                apps@[#[trigger] r@[a] as int].lower_name@,
            )->0 >= score_of(
                lowercase(trimmed(query@)),
                apps@[#[trigger] r@[b] as int].lower_name@,
            )->0,
        in_ascii(trimmed(query@)) ==> r@ == ranking(
            ascii_lowered(trimmed(query@)),
            lower_names(apps@),
        ),
        r@.len() <= apps@.len(),
        forall|k: int| 0 <= k < r@.len() ==> #[trigger] r@[k] < apps@.len(),
{
    let q = to_lowercase(trim(query).as_str());
    rank_lowered(q.as_str(), apps)
}

} // verus!
