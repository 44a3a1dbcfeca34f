//! Merging overlapping match candidates into clusters.
//!
//! Two candidates belong to the same cluster exactly when a chain of overlapping candidates joins
//! them; a cluster spans the union of its candidates, and its winner is its candidate of highest
//! priority (the longest in bytes; among equally long ones, the one of the earliest rule).

use vstd::prelude::*;

verus! {

/// A non-empty match of one rule: character range, length in bytes, the rule's position in its
/// profile, and the position of the rule among the rules that are run.
#[derive(Clone, Copy, PartialEq, Eq, Structural)]
pub struct Candidate {
    pub start: usize,
    pub end: usize,
    pub weight: usize,
    pub rule_index: usize,
    pub entry: usize,
}

/// A cluster: the range it replaces and the rule (by its position among the rules that are run)
/// whose replacement value is used.
#[derive(Clone, Copy, PartialEq, Eq, Structural)]
pub struct Cluster {
    pub start: usize,
    pub end: usize,
    pub winner: usize,
}

/// `a` has higher priority than `b`: longer in bytes, or as long and from an earlier rule.
pub open spec fn higher(a: Candidate, b: Candidate) -> bool {
    a.weight > b.weight || (a.weight == b.weight && a.rule_index < b.rule_index)
}

/// The priority order of clusters, on (length, rule position) pairs.
pub fn is_higher_priority(a_len: usize, a_rule_index: usize, b_len: usize, b_rule_index: usize) -> (r: bool)
    ensures
        r == (a_len > b_len || (a_len == b_len && a_rule_index < b_rule_index)),
{
    a_len > b_len || (a_len == b_len && a_rule_index < b_rule_index)
}

/// Some candidate of `cs` strictly surrounds position `p` (holds it inside, not at an end).
pub open spec fn covered(cs: Set<Candidate>, p: int) -> bool {
    exists|c: Candidate| #[trigger] cs.contains(c) && c.start < p < c.end
}

pub open spec fn within(c: Candidate, k: Cluster) -> bool {
    k.start <= c.start && c.end <= k.end
}

/// Clusters are non-empty and in order without overlap.
#[verifier::opaque]
pub open spec fn clusters_ordered(cl: Seq<Cluster>) -> bool {
    &&& forall|i: int| 0 <= i < cl.len() ==> (#[trigger] cl[i]).start < cl[i].end
    &&& forall|i: int, j: int| 0 <= i < j < cl.len() ==> (#[trigger] cl[i]).end <= (#[trigger] cl[j]).start
}

/// Every candidate lies in a cluster.
#[verifier::opaque]
pub open spec fn clusters_cover(cs: Set<Candidate>, cl: Seq<Cluster>) -> bool {
    forall|c: Candidate| #[trigger] cs.contains(c) ==> exists|i: int| 0 <= i < cl.len() && within(c, #[trigger] cl[i])
}

/// Each cluster starts where one of its candidates starts.
#[verifier::opaque]
pub open spec fn clusters_tight_start(cs: Set<Candidate>, cl: Seq<Cluster>) -> bool {
    forall|i: int| 0 <= i < cl.len() ==> exists|c: Candidate| #[trigger] cs.contains(c) && within(c, cl[i]) && c.start == (#[trigger] cl[i]).start
}

/// Each cluster ends where one of its candidates ends.
#[verifier::opaque]
pub open spec fn clusters_tight_end(cs: Set<Candidate>, cl: Seq<Cluster>) -> bool {
    forall|i: int| 0 <= i < cl.len() ==> exists|c: Candidate| #[trigger] cs.contains(c) && within(c, cl[i]) && c.end == (#[trigger] cl[i]).end
}

/// No cluster can be split: every position strictly inside it is strictly inside a candidate.
#[verifier::opaque]
pub open spec fn clusters_connected(cs: Set<Candidate>, cl: Seq<Cluster>) -> bool {
    forall|i: int, p: int| #![trigger cl[i], covered(cs, p)] 0 <= i < cl.len() && cl[i].start < p < cl[i].end ==> covered(cs, p)
}

/// A candidate of `cs` in `k` whose rule is the winner of `k` and that no candidate in `k` beats.
pub open spec fn winning_candidate(cs: Set<Candidate>, k: Cluster, c: Candidate) -> bool {
    &&& cs.contains(c)
    &&& within(c, k)
    &&& c.entry == k.winner
    &&& forall|d: Candidate| #[trigger] cs.contains(d) && within(d, k) ==> !higher(d, c)
}

/// Each cluster's winner is the rule of a candidate of highest priority in it.
#[verifier::opaque]
pub open spec fn clusters_won(cs: Set<Candidate>, cl: Seq<Cluster>) -> bool {
    forall|i: int| 0 <= i < cl.len() ==> #[trigger] has_winner(cs, cl[i])
}

/// `k` has a winning candidate in `cs`.
pub open spec fn has_winner(cs: Set<Candidate>, k: Cluster) -> bool {
    exists|c: Candidate| #[trigger] winning_candidate(cs, k, c)
}

/// `cl` is the clustering of the candidate set `cs`: clusters are non-empty and in order without
/// overlap, every candidate lies in a cluster, each cluster is exactly the union of its
/// candidates and cannot be split between two of them, and its winner is the rule of a candidate
/// of highest priority in it.
pub open spec fn valid_clustering(cs: Set<Candidate>, cl: Seq<Cluster>) -> bool {
    &&& clusters_ordered(cl)
    &&& clusters_cover(cs, cl)
    &&& clusters_tight_start(cs, cl)
    &&& clusters_tight_end(cs, cl)
    &&& clusters_connected(cs, cl)
    &&& clusters_won(cs, cl)
}

/// The candidates are in order of their start.
pub open spec fn sorted_by_start(s: Seq<Candidate>) -> bool {
    forall|i: int, j: int| 0 <= i < j < s.len() ==> (#[trigger] s[i]).start <= (#[trigger] s[j]).start
}

pub open spec fn all_non_empty(s: Seq<Candidate>) -> bool {
    forall|i: int| 0 <= i < s.len() ==> (#[trigger] s[i]).start < s[i].end
}

proof fn lemma_take_push_to_set(s: Seq<Candidate>, i: int)
    requires
        0 <= i < s.len(),
    ensures
        s.take(i + 1).to_set() == s.take(i).to_set().insert(s[i]),
{
    assert(s.take(i + 1) =~= s.take(i).push(s[i]));
    s.take(i).lemma_push_to_set_commute(s[i]);
}

/// Merges two candidate lists that are in order of their start.
pub fn merge_by_start(a: &Vec<Candidate>, b: &Vec<Candidate>) -> (r: Vec<Candidate>)
    requires
        sorted_by_start(a@),
        sorted_by_start(b@),
    ensures
        sorted_by_start(r@),
        r@.to_set() == a@.to_set() + b@.to_set(),
{
    let mut r: Vec<Candidate> = Vec::new();
    let mut i: usize = 0;
    let mut j: usize = 0;
    while i < a.len() || j < b.len()
        invariant
            sorted_by_start(a@),
            sorted_by_start(b@),
            i <= a@.len(),
            j <= b@.len(),
            sorted_by_start(r@),
            r@.len() > 0 && i < a@.len() ==> r@.last().start <= a@[i as int].start,
            r@.len() > 0 && j < b@.len() ==> r@.last().start <= b@[j as int].start,
            r@.to_set() == a@.take(i as int).to_set() + b@.take(j as int).to_set(),
        decreases a@.len() + b@.len() - i - j,
    {
        let take_a = j >= b.len() || (i < a.len() && a[i].start <= b[j].start);
        let c = if take_a { a[i] } else { b[j] };
        let ghost old_r = r@;
        r.push(c);
        proof {
            assert(r@ == old_r.push(c));
            old_r.lemma_push_to_set_commute(c);
            assert forall|x: int, y: int| 0 <= x < y < r@.len() implies (#[trigger] r@[x]).start
                <= (#[trigger] r@[y]).start by {
                if y == r@.len() - 1 && x < y {
                    assert(old_r[x].start <= old_r.last().start);
                }
            }
            if take_a {
                lemma_take_push_to_set(a@, i as int);
            } else {
                lemma_take_push_to_set(b@, j as int);
            }
        }
        if take_a {
            i += 1;
        } else {
            j += 1;
        }
        proof {
            if take_a {
                assert(r@.to_set() =~= a@.take(i as int).to_set() + b@.take(j as int).to_set());
            } else {
                assert(r@.to_set() =~= a@.take(i as int).to_set() + b@.take(j as int).to_set());
            }
        }
    }
    assert(a@.take(a@.len() as int) =~= a@);
    assert(b@.take(b@.len() as int) =~= b@);
    r
}

/// Some candidate among `s[lo..hi]` strictly surrounds position `p`.
pub open spec fn covered_by(s: Seq<Candidate>, lo: int, hi: int, p: int) -> bool {
    exists|k: int| lo <= k < hi && (#[trigger] s[k]).start < p < s[k].end
}

/// The facts that close the cluster built from `s[i0..i]`.
pub open spec fn closing_cluster(s: Seq<Candidate>, i0: int, i: int, k: Cluster, best: Candidate) -> bool {
    &&& 0 <= i0 < i <= s.len()
    &&& k.start == s[i0].start
    &&& k.start < k.end
    &&& forall|m: int| i0 <= m < i ==> within(#[trigger] s[m], k)
    &&& exists|m: int| i0 <= m < i && (#[trigger] s[m]).end == k.end
    &&& forall|p: int| k.start < p < k.end ==> #[trigger] covered_by(s, i0, i, p)
    &&& exists|m: int| i0 <= m < i && #[trigger] s[m] == best
    &&& forall|m: int| i0 <= m < i ==> !higher(#[trigger] s[m], best)
    &&& k.winner == best.entry
    &&& i < s.len() ==> k.end <= s[i].start
}

/// How the candidate sets before and after closing a cluster relate.
pub open spec fn step_sets(s: Seq<Candidate>, i0: int, i: int) -> bool {
    &&& forall|c: Candidate| #[trigger] s.take(i0).to_set().contains(c) ==> s.take(i).to_set().contains(c)
    &&& forall|c: Candidate| #[trigger] s.take(i).to_set().contains(c) ==> (s.take(i0).to_set().contains(c)
        || exists|m: int| i0 <= m < i && s[m] == c)
    &&& forall|m: int| i0 <= m < i ==> s.take(i).to_set().contains(#[trigger] s[m])
    &&& forall|c: Candidate| #[trigger] s.take(i0).to_set().contains(c) ==> exists|m: int| 0 <= m < i0 && s[m] == c
}

proof fn lemma_step_sets(s: Seq<Candidate>, i0: int, i: int)
    requires
        0 <= i0 <= i <= s.len(),
    ensures
        step_sets(s, i0, i),
{
    let cs0 = s.take(i0).to_set();
    let cs1 = s.take(i).to_set();
    assert forall|c: Candidate| #[trigger] cs0.contains(c) implies cs1.contains(c) by {
        let m = choose|m: int| 0 <= m < i0 && s.take(i0)[m] == c;
        assert(s.take(i)[m] == c);
    }
    assert forall|c: Candidate| #[trigger] cs1.contains(c) implies (cs0.contains(c) || exists|m: int|
        i0 <= m < i && s[m] == c) by {
        let m = choose|m: int| 0 <= m < i && s.take(i)[m] == c;
        if m < i0 {
            assert(s.take(i0)[m] == c);
        }
    }
    assert forall|m: int| i0 <= m < i implies cs1.contains(#[trigger] s[m]) by {
        assert(s.take(i)[m] == s[m]);
    }
    assert forall|c: Candidate| #[trigger] cs0.contains(c) implies exists|m: int| 0 <= m < i0 && s[m] == c by {
        let m = choose|m: int| 0 <= m < i0 && s.take(i0)[m] == c;
        assert(s[m] == c);
    }
}

proof fn lemma_close_ordered(cl: Seq<Cluster>, k: Cluster)
    requires
        clusters_ordered(cl),
        cl.len() > 0 ==> cl.last().end <= k.start,
        k.start < k.end,
    ensures
        clusters_ordered(cl.push(k)),
        forall|j: int| 0 <= j < cl.len() ==> (#[trigger] cl[j]).end <= k.start,
{
    reveal(clusters_ordered);
    let n = cl.len() as int;
    let cl1 = cl.push(k);
    assert forall|j: int| 0 <= j < n implies (#[trigger] cl[j]).end <= k.start by {
        if j < n - 1 {
            assert(cl[j].end <= cl[n - 1].start);
        }
    }
    assert forall|j: int| 0 <= j < cl1.len() implies (#[trigger] cl1[j]).start < cl1[j].end by {
        if j < n {
            assert(cl1[j] == cl[j]);
        }
    }
    assert forall|x: int, y: int| 0 <= x < y < cl1.len() implies (#[trigger] cl1[x]).end <= (
    #[trigger] cl1[y]).start by {
        assert(cl1[x] == cl[x]);
        if y < n {
            assert(cl1[y] == cl[y]);
        }
    }
}

proof fn lemma_close_cover(s: Seq<Candidate>, i0: int, i: int, cl: Seq<Cluster>, k: Cluster, best: Candidate)
    requires
        clusters_cover(s.take(i0).to_set(), cl),
        closing_cluster(s, i0, i, k, best),
        step_sets(s, i0, i),
    ensures
        clusters_cover(s.take(i).to_set(), cl.push(k)),
{
    reveal(clusters_cover);
    let cs0 = s.take(i0).to_set();
    let cs1 = s.take(i).to_set();
    let cl1 = cl.push(k);
    let n = cl.len() as int;
    assert forall|c: Candidate| #[trigger] cs1.contains(c) implies exists|j: int|
        0 <= j < cl1.len() && within(c, #[trigger] cl1[j]) by {
        if cs0.contains(c) {
            let j = choose|j: int| 0 <= j < cl.len() && within(c, #[trigger] cl[j]);
            assert(cl1[j] == cl[j]);
        } else {
            let m = choose|m: int| i0 <= m < i && s[m] == c;
            assert(within(s[m], k));
            assert(cl1[n] == k);
        }
    }
}

proof fn lemma_close_tight(s: Seq<Candidate>, i0: int, i: int, cl: Seq<Cluster>, k: Cluster, best: Candidate)
    requires
        clusters_tight_start(s.take(i0).to_set(), cl),
        clusters_tight_end(s.take(i0).to_set(), cl),
        closing_cluster(s, i0, i, k, best),
        step_sets(s, i0, i),
    ensures
        clusters_tight_start(s.take(i).to_set(), cl.push(k)),
        clusters_tight_end(s.take(i).to_set(), cl.push(k)),
{
    reveal(clusters_tight_start);
    reveal(clusters_tight_end);
    let cs0 = s.take(i0).to_set();
    let cs1 = s.take(i).to_set();
    let cl1 = cl.push(k);
    let n = cl.len() as int;
    assert forall|j: int| 0 <= j < cl1.len() implies exists|c: Candidate| #[trigger] cs1.contains(c)
        && within(c, cl1[j]) && c.start == (#[trigger] cl1[j]).start by {
        if j < n {
            assert(cl1[j] == cl[j]);
            let c = choose|c: Candidate| #[trigger] cs0.contains(c) && within(c, cl[j]) && c.start == cl[j].start;
            assert(cs1.contains(c));
        } else {
            assert(cs1.contains(s[i0]));
            assert(within(s[i0], k));
        }
    }
    assert forall|j: int| 0 <= j < cl1.len() implies exists|c: Candidate| #[trigger] cs1.contains(c)
        && within(c, cl1[j]) && c.end == (#[trigger] cl1[j]).end by {
        if j < n {
            assert(cl1[j] == cl[j]);
            let c = choose|c: Candidate| #[trigger] cs0.contains(c) && within(c, cl[j]) && c.end == cl[j].end;
            assert(cs1.contains(c));
        } else {
            let m = choose|m: int| i0 <= m < i && (#[trigger] s[m]).end == k.end;
            assert(cs1.contains(s[m]));
            assert(within(s[m], k));
        }
    }
}

proof fn lemma_close_connected(s: Seq<Candidate>, i0: int, i: int, cl: Seq<Cluster>, k: Cluster, best: Candidate)
    requires
        clusters_connected(s.take(i0).to_set(), cl),
        closing_cluster(s, i0, i, k, best),
        step_sets(s, i0, i),
    ensures
        clusters_connected(s.take(i).to_set(), cl.push(k)),
{
    reveal(clusters_connected);
    let cs0 = s.take(i0).to_set();
    let cs1 = s.take(i).to_set();
    let cl1 = cl.push(k);
    let n = cl.len() as int;
    assert forall|j: int, p: int| 0 <= j < cl1.len() && (#[trigger] cl1[j]).start < p < cl1[j].end
        implies #[trigger] covered(cs1, p) by {
        if j < n {
            assert(cl1[j] == cl[j]);
            assert(covered(cs0, p));
            let c = choose|c: Candidate| #[trigger] cs0.contains(c) && c.start < p < c.end;
            assert(cs1.contains(c));
        } else {
            assert(covered_by(s, i0, i, p));
            let m = choose|m: int| i0 <= m < i && (#[trigger] s[m]).start < p < s[m].end;
            assert(cs1.contains(s[m]));
        }
    }
}

proof fn lemma_close_won_old(s: Seq<Candidate>, i0: int, i: int, cl: Seq<Cluster>, k: Cluster, j: int)
    requires
        all_non_empty(s),
        sorted_by_start(s),
        0 <= j < cl.len(),
        has_winner(s.take(i0).to_set(), cl[j]),
        cl[j].end <= k.start,
        0 <= i0 < i <= s.len(),
        k.start == s[i0].start,
        step_sets(s, i0, i),
    ensures
        has_winner(s.take(i).to_set(), cl[j]),
{
    let cs0 = s.take(i0).to_set();
    let cs1 = s.take(i).to_set();
    let c = choose|c: Candidate| #[trigger] winning_candidate(cs0, cl[j], c);
    assert(cs1.contains(c));
    assert forall|d: Candidate| #[trigger] cs1.contains(d) && within(d, cl[j]) implies !higher(d, c) by {
        if !cs0.contains(d) {
            let m = choose|m: int| i0 <= m < i && s[m] == d;
            assert(s[i0].start <= s[m].start);
            assert(s[m].start < s[m].end);
        }
    }
    assert(winning_candidate(cs1, cl[j], c));
}

proof fn lemma_close_won_new(s: Seq<Candidate>, i0: int, i: int, cl: Seq<Cluster>, k: Cluster, best: Candidate)
    requires
        all_non_empty(s),
        clusters_cover(s.take(i0).to_set(), cl),
        forall|j: int| 0 <= j < cl.len() ==> (#[trigger] cl[j]).end <= k.start,
        closing_cluster(s, i0, i, k, best),
        step_sets(s, i0, i),
    ensures
        winning_candidate(s.take(i).to_set(), k, best),
{
    reveal(clusters_cover);
    let cs0 = s.take(i0).to_set();
    let cs1 = s.take(i).to_set();
    let mb = choose|m: int| i0 <= m < i && #[trigger] s[m] == best;
    assert(cs1.contains(s[mb]));
    assert(within(s[mb], k));
    assert forall|d: Candidate| #[trigger] cs1.contains(d) && within(d, k) implies !higher(d, best) by {
        if cs0.contains(d) {
            let jj = choose|jj: int| 0 <= jj < cl.len() && within(d, #[trigger] cl[jj]);
            let md = choose|md: int| 0 <= md < i0 && s[md] == d;
            assert(s[md].start < s[md].end);
        } else {
            let m = choose|m: int| i0 <= m < i && s[m] == d;
            assert(!higher(s[m], best));
        }
    }
}

proof fn lemma_close_won(s: Seq<Candidate>, i0: int, i: int, cl: Seq<Cluster>, k: Cluster, best: Candidate)
    requires
        all_non_empty(s),
        sorted_by_start(s),
        clusters_won(s.take(i0).to_set(), cl),
        clusters_cover(s.take(i0).to_set(), cl),
        forall|j: int| 0 <= j < cl.len() ==> (#[trigger] cl[j]).end <= k.start,
        closing_cluster(s, i0, i, k, best),
        step_sets(s, i0, i),
    ensures
        clusters_won(s.take(i).to_set(), cl.push(k)),
{
    reveal(clusters_won);
    let cs1 = s.take(i).to_set();
    let cl1 = cl.push(k);
    let n = cl.len() as int;
    assert forall|j: int| 0 <= j < cl1.len() implies #[trigger] has_winner(cs1, cl1[j]) by {
        if j < n {
            assert(cl1[j] == cl[j]);
            lemma_close_won_old(s, i0, i, cl, k, j);
        } else {
            lemma_close_won_new(s, i0, i, cl, k, best);
            assert(winning_candidate(cs1, cl1[j], best));
        }
    }
}

proof fn lemma_close_cluster(s: Seq<Candidate>, i0: int, i: int, cl: Seq<Cluster>, k: Cluster, best: Candidate)
    requires
        sorted_by_start(s),
        all_non_empty(s),
        valid_clustering(s.take(i0).to_set(), cl),
        cl.len() > 0 ==> cl.last().end <= s[i0].start,
        closing_cluster(s, i0, i, k, best),
    ensures
        valid_clustering(s.take(i).to_set(), cl.push(k)),
{
    lemma_step_sets(s, i0, i);
    lemma_close_ordered(cl, k);
    lemma_close_cover(s, i0, i, cl, k, best);
    lemma_close_tight(s, i0, i, cl, k, best);
    lemma_close_connected(s, i0, i, cl, k, best);
    lemma_close_won(s, i0, i, cl, k, best);
}

/// The clustering of candidates that are in order of their start.
pub fn cluster_sorted(s: &Vec<Candidate>, bound: usize) -> (r: Vec<Cluster>)
    requires
        sorted_by_start(s@),
        all_non_empty(s@),
        forall|i: int| 0 <= i < s@.len() ==> (#[trigger] s@[i]).end <= bound,
    ensures
        valid_clustering(s@.to_set(), r@),
        forall|i: int| 0 <= i < r@.len() ==> (#[trigger] r@[i]).start < r@[i].end <= bound,
        forall|i: int, j: int| 0 <= i < j < r@.len() ==> (#[trigger] r@[i]).end <= (#[trigger] r@[j]).start,
{
    let n = s.len();
    let mut cl: Vec<Cluster> = Vec::new();
    let mut i: usize = 0;
    proof {
        assert(s@.take(0).to_set() =~= Set::<Candidate>::empty());
        reveal(clusters_ordered);
        reveal(clusters_cover);
        reveal(clusters_tight_start);
        reveal(clusters_tight_end);
        reveal(clusters_connected);
        reveal(clusters_won);
    }
    while i < n
        invariant
            n == s@.len(),
            sorted_by_start(s@),
            all_non_empty(s@),
            i <= n,
            forall|m: int| 0 <= m < s@.len() ==> (#[trigger] s@[m]).end <= bound,
            valid_clustering(s@.take(i as int).to_set(), cl@),
            cl@.len() > 0 && i < n ==> cl@.last().end <= s@[i as int].start,
        decreases n - i,
    {
        let i0 = i;
        let start = s[i].start;
        let mut end = s[i].end;
        let mut best = s[i];
        i += 1;
        while i < n && s[i].start < end
            invariant
                n == s@.len(),
                sorted_by_start(s@),
                all_non_empty(s@),
                i0 < i <= n,
                start == s@[i0 as int].start,
                start < end,
                forall|m: int| i0 <= m < i ==> within(#[trigger] s@[m], Cluster { start, end, winner: 0 }),
                exists|m: int| i0 <= m < i && (#[trigger] s@[m]).end == end,
                forall|p: int| start < p < end ==> #[trigger] covered_by(s@, i0 as int, i as int, p),
                exists|m: int| i0 <= m < i && #[trigger] s@[m] == best,
                forall|m: int| i0 <= m < i ==> !higher(#[trigger] s@[m], best),
            decreases n - i,
        {
            let c = s[i];
            proof {
                assert(s@[i0 as int].start <= s@[i as int].start);
                assert forall|p: int| start < p < (if c.end > end { c.end } else { end }) implies
                    #[trigger] covered_by(s@, i0 as int, i + 1, p) by {
                    if p < end {
                        assert(covered_by(s@, i0 as int, i as int, p));
                        let m = choose|m: int| i0 <= m < i && (#[trigger] s@[m]).start < p < s@[m].end;
                        assert(i0 <= m < i + 1);
                    } else {
                        assert(s@[i as int].start < p < s@[i as int].end);
                    }
                }
            }
            if c.end > end {
                end = c.end;
            }
            if is_higher_priority(c.weight, c.rule_index, best.weight, best.rule_index) {
                best = c;
            }
            i += 1;
            proof {
                assert forall|m: int| i0 <= m < i implies !higher(#[trigger] s@[m], best) by {
                    if m < i - 1 {
                    }
                }
            }
        }
        let k = Cluster { start, end, winner: best.entry };
        proof {
            assert(closing_cluster(s@, i0 as int, i as int, k, best));
            lemma_close_cluster(s@, i0 as int, i as int, cl@, k, best);
        }
        cl.push(k);
    }
    assert(s@.take(n as int) =~= s@);
    proof {
        lemma_clusters_bounded(s@, cl@, bound as int);
    }
    cl
}

proof fn lemma_clusters_bounded(s: Seq<Candidate>, cl: Seq<Cluster>, bound: int)
    requires
        valid_clustering(s.to_set(), cl),
        forall|i: int| 0 <= i < s.len() ==> (#[trigger] s[i]).end <= bound,
    ensures
        forall|i: int| 0 <= i < cl.len() ==> (#[trigger] cl[i]).start < cl[i].end <= bound,
        forall|i: int, j: int| 0 <= i < j < cl.len() ==> (#[trigger] cl[i]).end <= (#[trigger] cl[j]).start,
{
    reveal(clusters_ordered);
    reveal(clusters_tight_end);
    assert forall|j: int| 0 <= j < cl.len() implies (#[trigger] cl[j]).start < cl[j].end <= bound by {
        let c = choose|c: Candidate| #[trigger] s.to_set().contains(c) && within(c, cl[j]) && c.end == cl[j].end;
        let m = choose|m: int| 0 <= m < s.len() && s[m] == c;
    }
}

// ---------------------------------------------------------------------------------------------
// One clustering only
// ---------------------------------------------------------------------------------------------
/// Every candidate of `cs` is non-empty.
pub open spec fn candidates_non_empty(cs: Set<Candidate>) -> bool {
    forall|c: Candidate| #[trigger] cs.contains(c) ==> c.start < c.end
}

/// Candidates of one rule (by its position in the profile) have one position among the rules
/// that are run.
pub open spec fn rule_decides_entry(cs: Set<Candidate>) -> bool {
    forall|c: Candidate, d: Candidate|
        #[trigger] cs.contains(c) && #[trigger] cs.contains(d) && c.rule_index == d.rule_index ==> c.entry
            == d.entry
}

/// `p` is the start of a candidate of `cs` that no candidate strictly surrounds.
pub open spec fn open_start(cs: Set<Candidate>, p: int) -> bool {
    exists|c: Candidate| #[trigger] cs.contains(c) && c.start == p && !covered(cs, p)
}

/// `p` is the end of a candidate of `cs` that no candidate strictly surrounds.
pub open spec fn open_end(cs: Set<Candidate>, p: int) -> bool {
    exists|c: Candidate| #[trigger] cs.contains(c) && c.end == p && !covered(cs, p)
}

pub open spec fn cluster_starts(cl: Seq<Cluster>) -> Seq<int> {
    cl.map_values(|k: Cluster| k.start as int)
}

pub open spec fn cluster_ends(cl: Seq<Cluster>) -> Seq<int> {
    cl.map_values(|k: Cluster| k.end as int)
}

pub open spec fn strictly_increasing(a: Seq<int>) -> bool {
    forall|i: int, j: int| 0 <= i < j < a.len() ==> (#[trigger] a[i]) < (#[trigger] a[j])
}

/// A cluster starts at the start of a candidate that nothing surrounds.
proof fn lemma_cluster_start_is_open(cs: Set<Candidate>, cl: Seq<Cluster>, i: int)
    requires
        valid_clustering(cs, cl),
        0 <= i < cl.len(),
    ensures
        open_start(cs, cl[i].start as int),
{
    reveal(clusters_ordered);
    reveal(clusters_cover);
    reveal(clusters_tight_start);
    let p = cl[i].start as int;
    let c = choose|c: Candidate| #[trigger] cs.contains(c) && within(c, cl[i]) && c.start == cl[i].start;
    if covered(cs, p) {
        let d = choose|d: Candidate| #[trigger] cs.contains(d) && d.start < p < d.end;
        let j = choose|j: int| 0 <= j < cl.len() && within(d, #[trigger] cl[j]);
        if j < i {
            assert(cl[j].end <= cl[i].start);
        } else if j > i {
            assert(cl[i].end <= cl[j].start);
        }
    }
}

/// A cluster ends at the end of a candidate that nothing surrounds.
proof fn lemma_cluster_end_is_open(cs: Set<Candidate>, cl: Seq<Cluster>, i: int)
    requires
        valid_clustering(cs, cl),
        0 <= i < cl.len(),
    ensures
        open_end(cs, cl[i].end as int),
{
    reveal(clusters_ordered);
    reveal(clusters_cover);
    reveal(clusters_tight_end);
    let p = cl[i].end as int;
    let c = choose|c: Candidate| #[trigger] cs.contains(c) && within(c, cl[i]) && c.end == cl[i].end;
    if covered(cs, p) {
        let d = choose|d: Candidate| #[trigger] cs.contains(d) && d.start < p < d.end;
        let j = choose|j: int| 0 <= j < cl.len() && within(d, #[trigger] cl[j]);
        assert(cl[i].start < cl[i].end);
        if j < i {
            assert(cl[j].end <= cl[i].start);
            assert(d.end <= cl[j].end);
        } else if j > i {
            assert(cl[i].end <= cl[j].start);
            assert(cl[j].start <= d.start);
        } else {
            assert(d.end <= cl[i].end);
        }
        assert(false);
    }
}

/// An open start of a non-empty candidate is where its cluster starts.
proof fn lemma_open_start_is_cluster_start(cs: Set<Candidate>, cl: Seq<Cluster>, p: int)
    requires
        valid_clustering(cs, cl),
        candidates_non_empty(cs),
        open_start(cs, p),
    ensures
        cluster_starts(cl).contains(p),
{
    reveal(clusters_cover);
    reveal(clusters_connected);
    let c = choose|c: Candidate| #[trigger] cs.contains(c) && c.start == p && !covered(cs, p);
    let i = choose|i: int| 0 <= i < cl.len() && within(c, #[trigger] cl[i]);
    if cl[i].start < p {
        assert(cl[i].start < p < cl[i].end ==> covered(cs, p));
    }
    assert(cluster_starts(cl)[i] == p);
}

/// An open end of a non-empty candidate is where its cluster ends.
proof fn lemma_open_end_is_cluster_end(cs: Set<Candidate>, cl: Seq<Cluster>, p: int)
    requires
        valid_clustering(cs, cl),
        candidates_non_empty(cs),
        open_end(cs, p),
    ensures
        cluster_ends(cl).contains(p),
{
    reveal(clusters_cover);
    reveal(clusters_connected);
    let c = choose|c: Candidate| #[trigger] cs.contains(c) && c.end == p && !covered(cs, p);
    let i = choose|i: int| 0 <= i < cl.len() && within(c, #[trigger] cl[i]);
    if cl[i].end > p {
        assert(cl[i].start < p < cl[i].end ==> covered(cs, p));
    }
    assert(cluster_ends(cl)[i] == p);
}

/// The clusters of a valid clustering start exactly at the open starts of the candidates, and
/// end exactly at their open ends.
proof fn lemma_cluster_bounds(cs: Set<Candidate>, cl: Seq<Cluster>, p: int)
    requires
        valid_clustering(cs, cl),
        candidates_non_empty(cs),
    ensures
        cluster_starts(cl).contains(p) <==> open_start(cs, p),
        cluster_ends(cl).contains(p) <==> open_end(cs, p),
{
    if cluster_starts(cl).contains(p) {
        let i = choose|i: int| 0 <= i < cluster_starts(cl).len() && cluster_starts(cl)[i] == p;
        lemma_cluster_start_is_open(cs, cl, i);
    }
    if open_start(cs, p) {
        lemma_open_start_is_cluster_start(cs, cl, p);
    }
    if cluster_ends(cl).contains(p) {
        let i = choose|i: int| 0 <= i < cluster_ends(cl).len() && cluster_ends(cl)[i] == p;
        lemma_cluster_end_is_open(cs, cl, i);
    }
    if open_end(cs, p) {
        lemma_open_end_is_cluster_end(cs, cl, p);
    }
}

/// Two strictly increasing sequences with the same elements are equal.
proof fn lemma_increasing_same_elements(a: Seq<int>, b: Seq<int>)
    requires
        strictly_increasing(a),
        strictly_increasing(b),
        forall|x: int| a.contains(x) <==> b.contains(x),
    ensures
        a == b,
    decreases a.len(),
{
    if a.len() == 0 {
        if b.len() > 0 {
            assert(b.contains(b[0]));
        }
        assert(a =~= b);
    } else {
        assert(a.contains(a[0]));
        let j = choose|j: int| 0 <= j < b.len() && b[j] == a[0];
        assert(b.contains(b[0]));
        let i = choose|i: int| 0 <= i < a.len() && a[i] == b[0];
        if i > 0 {
            assert(a[0] < a[i]);
        }
        if j > 0 {
            assert(b[0] < b[j]);
        }
        assert(a[0] == b[0]);
        let a1 = a.drop_first();
        let b1 = b.drop_first();
        assert forall|x: int| a1.contains(x) <==> b1.contains(x) by {
            if a1.contains(x) {
                let k = choose|k: int| 0 <= k < a1.len() && a1[k] == x;
                assert(a[0] < a[k + 1]);
                assert(a.contains(x));
                let m = choose|m: int| 0 <= m < b.len() && b[m] == x;
                assert(m != 0);
                assert(b1[m - 1] == x);
            }
            if b1.contains(x) {
                let k = choose|k: int| 0 <= k < b1.len() && b1[k] == x;
                assert(b[0] < b[k + 1]);
                assert(b.contains(x));
                let m = choose|m: int| 0 <= m < a.len() && a[m] == x;
                assert(m != 0);
                assert(a1[m - 1] == x);
            }
        }
        assert forall|p: int, q: int| 0 <= p < q < a1.len() implies (#[trigger] a1[p]) < (#[trigger] a1[q]) by {
            assert(a[p + 1] < a[q + 1]);
        }
        assert forall|p: int, q: int| 0 <= p < q < b1.len() implies (#[trigger] b1[p]) < (#[trigger] b1[q]) by {
            assert(b[p + 1] < b[q + 1]);
        }
        lemma_increasing_same_elements(a1, b1);
        assert forall|k: int| 0 <= k < a.len() implies a[k] == b[k] by {
            if k > 0 {
                assert(a1[k - 1] == b1[k - 1]);
            }
        }
        assert(a =~= b);
    }
}

proof fn lemma_bounds_increasing(cl: Seq<Cluster>)
    requires
        clusters_ordered(cl),
    ensures
        strictly_increasing(cluster_starts(cl)),
        strictly_increasing(cluster_ends(cl)),
{
    reveal(clusters_ordered);
    assert forall|i: int, j: int| 0 <= i < j < cluster_starts(cl).len() implies (#[trigger] cluster_starts(
        cl,
    )[i]) < (#[trigger] cluster_starts(cl)[j]) by {
        assert(cl[i].end <= cl[j].start);
    }
    assert forall|i: int, j: int| 0 <= i < j < cluster_ends(cl).len() implies (#[trigger] cluster_ends(
        cl,
    )[i]) < (#[trigger] cluster_ends(cl)[j]) by {
        assert(cl[i].end <= cl[j].start);
    }
}

/// A set of non-empty candidates has one clustering only, provided that candidates of one rule
/// carry one position among the rules that are run: the clusters' bounds are fixed by the
/// candidates, and a cluster's winner by its candidates of highest priority.
pub proof fn law_clustering_is_unique(cs: Set<Candidate>, cl1: Seq<Cluster>, cl2: Seq<Cluster>)
    requires
        candidates_non_empty(cs),
        rule_decides_entry(cs),
        valid_clustering(cs, cl1),
        valid_clustering(cs, cl2),
    ensures
        cl1 == cl2,
{
    lemma_bounds_increasing(cl1);
    lemma_bounds_increasing(cl2);
    assert forall|x: int| cluster_starts(cl1).contains(x) <==> cluster_starts(cl2).contains(x) by {
        lemma_cluster_bounds(cs, cl1, x);
        lemma_cluster_bounds(cs, cl2, x);
    }
    assert forall|x: int| cluster_ends(cl1).contains(x) <==> cluster_ends(cl2).contains(x) by {
        lemma_cluster_bounds(cs, cl1, x);
        lemma_cluster_bounds(cs, cl2, x);
    }
    lemma_increasing_same_elements(cluster_starts(cl1), cluster_starts(cl2));
    lemma_increasing_same_elements(cluster_ends(cl1), cluster_ends(cl2));
    assert(cluster_starts(cl1).len() == cl1.len());
    assert(cluster_starts(cl2).len() == cl2.len());
    assert(cl1.len() == cl2.len());
    reveal(clusters_won);
    assert forall|i: int| 0 <= i < cl1.len() implies cl1[i] == cl2[i] by {
        assert(cluster_starts(cl1)[i] == cluster_starts(cl2)[i]);
        assert(cluster_ends(cl1)[i] == cluster_ends(cl2)[i]);
        assert(has_winner(cs, cl1[i]));
        assert(has_winner(cs, cl2[i]));
        let c1 = choose|c: Candidate| #[trigger] winning_candidate(cs, cl1[i], c);
        let c2 = choose|c: Candidate| #[trigger] winning_candidate(cs, cl2[i], c);
        assert(within(c1, cl2[i]));
        assert(within(c2, cl1[i]));
        assert(!higher(c1, c2));
        assert(!higher(c2, c1));
        assert(c1.entry == c2.entry);
    }
    assert(cl1 =~= cl2);
}

} // verus!
