//! Ordering breakdown rows hardest first: by mean combined difficulty
//! (descending, a group with nothing counted below every other), with ties
//! broken as each table asks and then by map order.

use vstd::prelude::*;
use crate::profile::TopicStats;

verus! {

// ---------------------------------------------------------------------------
// Comparing means
// ---------------------------------------------------------------------------

/// The mean `s1/n1` is above the mean `s2/n2`; a mean over nothing counts
/// as −1, below every other.
pub open spec fn mean_gt(s1: nat, n1: nat, s2: nat, n2: nat) -> bool {
    if n1 == 0 { false } else if n2 == 0 { true } else { s1 * n2 > s2 * n1 }
}

/// The means `s1/n1` and `s2/n2` are equal.
pub open spec fn mean_eq(s1: nat, n1: nat, s2: nat, n2: nat) -> bool {
    (n1 == 0 && n2 == 0) || (n1 > 0 && n2 > 0 && s1 * n2 == s2 * n1)
}

proof fn lemma_mean_cross(s1: nat, n1: nat, s2: nat, n2: nat, s3: nat, n3: nat)
    by (nonlinear_arith)
    requires
        n1 > 0,
        n2 > 0,
        n3 > 0,
    ensures
        s1 * n2 > s2 * n1 && s2 * n3 > s3 * n2 ==> s1 * n3 > s3 * n1,
        s1 * n2 > s2 * n1 && s2 * n3 == s3 * n2 ==> s1 * n3 > s3 * n1,
        s1 * n2 == s2 * n1 && s2 * n3 > s3 * n2 ==> s1 * n3 > s3 * n1,
        s1 * n2 == s2 * n1 && s2 * n3 == s3 * n2 ==> s1 * n3 == s3 * n1,
{
}

/// Means are totally preordered.
pub proof fn lemma_mean_order(s1: nat, n1: nat, s2: nat, n2: nat, s3: nat, n3: nat)
    ensures
        mean_gt(s1, n1, s2, n2) || mean_gt(s2, n2, s1, n1) || mean_eq(s1, n1, s2, n2),
        !(mean_gt(s1, n1, s2, n2) && mean_gt(s2, n2, s1, n1)),
        !(mean_gt(s1, n1, s2, n2) && mean_eq(s1, n1, s2, n2)),
        mean_eq(s1, n1, s2, n2) == mean_eq(s2, n2, s1, n1),
        mean_gt(s1, n1, s2, n2) && mean_gt(s2, n2, s3, n3) ==> mean_gt(s1, n1, s3, n3),
        mean_gt(s1, n1, s2, n2) && mean_eq(s2, n2, s3, n3) ==> mean_gt(s1, n1, s3, n3),
        mean_eq(s1, n1, s2, n2) && mean_gt(s2, n2, s3, n3) ==> mean_gt(s1, n1, s3, n3),
        mean_eq(s1, n1, s2, n2) && mean_eq(s2, n2, s3, n3) ==> mean_eq(s1, n1, s3, n3),
{
    if n1 > 0 && n2 > 0 && n3 > 0 {
        lemma_mean_cross(s1, n1, s2, n2, s3, n3);
    }
}

fn mean_gt_of(s1: usize, n1: usize, s2: usize, n2: usize) -> (r: bool)
    ensures
        r == mean_gt(s1 as nat, n1 as nat, s2 as nat, n2 as nat),
{
    if n1 == 0 {
        false
    } else if n2 == 0 {
        true
    } else {
        proof {
            assert((s1 as int) * (n2 as int) <= u128::MAX) by (nonlinear_arith)
                requires
                    0 <= s1 <= 0xffff_ffff_ffff_ffff,
                    0 <= n2 <= 0xffff_ffff_ffff_ffff,
            ;
            assert((s2 as int) * (n1 as int) <= u128::MAX) by (nonlinear_arith)
                requires
                    0 <= s2 <= 0xffff_ffff_ffff_ffff,
                    0 <= n1 <= 0xffff_ffff_ffff_ffff,
            ;
        }
        let a = (s1 as u128) * (n2 as u128);
        let b = (s2 as u128) * (n1 as u128);
        a > b
    }
}

// ---------------------------------------------------------------------------
// Ranks
// ---------------------------------------------------------------------------

/// Which table's ranking.
#[derive(Clone, Copy, PartialEq, Eq, Debug, Structural)]
pub enum RankKind {
    /// Categories: by mean combined cardplay.
    Category,
    /// Lessons: by mean combined cardplay, then deal count.
    Lesson,
    /// Topics: by mean combined cardplay, then mean combined bidding, then
    /// deal count.
    Topic,
}

/// Group `a` ranks strictly above group `b`.
pub open spec fn rank_gt(kind: RankKind, a: TopicStats, b: TopicStats) -> bool {
    let (cs1, cn1, cs2, cn2) = (a.combined_cardplay_sum as nat, a.combined_cardplay_n as nat,
        b.combined_cardplay_sum as nat, b.combined_cardplay_n as nat);
    let (bs1, bn1, bs2, bn2) = (a.combined_bidding_sum as nat, a.combined_bidding_n as nat,
        b.combined_bidding_sum as nat, b.combined_bidding_n as nat);
    mean_gt(cs1, cn1, cs2, cn2) || (mean_eq(cs1, cn1, cs2, cn2) && match kind {
        RankKind::Category => false,
        RankKind::Lesson => a.deal_count > b.deal_count,
        RankKind::Topic => mean_gt(bs1, bn1, bs2, bn2) || (mean_eq(bs1, bn1, bs2, bn2) && a.deal_count > b.deal_count),
    })
}

/// Groups `a` and `b` rank equally.
pub open spec fn rank_eq(kind: RankKind, a: TopicStats, b: TopicStats) -> bool {
    mean_eq(a.combined_cardplay_sum as nat, a.combined_cardplay_n as nat, b.combined_cardplay_sum as nat, b.combined_cardplay_n as nat)
        && match kind {
        RankKind::Category => true,
        RankKind::Lesson => a.deal_count == b.deal_count,
        RankKind::Topic => mean_eq(a.combined_bidding_sum as nat, a.combined_bidding_n as nat, b.combined_bidding_sum as nat, b.combined_bidding_n as nat)
            && a.deal_count == b.deal_count,
    }
}

/// Ranks are totally preordered.
pub proof fn lemma_rank_order(kind: RankKind, a: TopicStats, b: TopicStats, c: TopicStats)
    ensures
        rank_gt(kind, a, b) || rank_gt(kind, b, a) || rank_eq(kind, a, b),
        !(rank_gt(kind, a, b) && rank_gt(kind, b, a)),
        !(rank_gt(kind, a, b) && rank_eq(kind, a, b)),
        rank_gt(kind, a, b) && rank_gt(kind, b, c) ==> rank_gt(kind, a, c),
        rank_gt(kind, a, b) && rank_eq(kind, b, c) ==> rank_gt(kind, a, c),
        rank_eq(kind, a, b) && rank_gt(kind, b, c) ==> rank_gt(kind, a, c),
{
    lemma_mean_order(a.combined_cardplay_sum as nat, a.combined_cardplay_n as nat, b.combined_cardplay_sum as nat,
        b.combined_cardplay_n as nat, c.combined_cardplay_sum as nat, c.combined_cardplay_n as nat);
    lemma_mean_order(b.combined_cardplay_sum as nat, b.combined_cardplay_n as nat, c.combined_cardplay_sum as nat,
        c.combined_cardplay_n as nat, a.combined_cardplay_sum as nat, a.combined_cardplay_n as nat);
    lemma_mean_order(c.combined_cardplay_sum as nat, c.combined_cardplay_n as nat, a.combined_cardplay_sum as nat,
        a.combined_cardplay_n as nat, b.combined_cardplay_sum as nat, b.combined_cardplay_n as nat);
    lemma_mean_order(a.combined_bidding_sum as nat, a.combined_bidding_n as nat, b.combined_bidding_sum as nat,
        b.combined_bidding_n as nat, c.combined_bidding_sum as nat, c.combined_bidding_n as nat);
    lemma_mean_order(b.combined_bidding_sum as nat, b.combined_bidding_n as nat, c.combined_bidding_sum as nat,
        c.combined_bidding_n as nat, a.combined_bidding_sum as nat, a.combined_bidding_n as nat);
    lemma_mean_order(c.combined_bidding_sum as nat, c.combined_bidding_n as nat, a.combined_bidding_sum as nat,
        a.combined_bidding_n as nat, b.combined_bidding_sum as nat, b.combined_bidding_n as nat);
}

/// Computes `rank_gt(kind, a, b)`.
pub fn rank_gt_of(kind: RankKind, a: &TopicStats, b: &TopicStats) -> (r: bool)
    ensures
        r == rank_gt(kind, *a, *b),
{
    let cp_gt = mean_gt_of(a.combined_cardplay_sum, a.combined_cardplay_n, b.combined_cardplay_sum, b.combined_cardplay_n);
    if cp_gt {
        return true;
    }
    let cp_lt = mean_gt_of(b.combined_cardplay_sum, b.combined_cardplay_n, a.combined_cardplay_sum, a.combined_cardplay_n);
    proof {
        lemma_mean_order(a.combined_cardplay_sum as nat, a.combined_cardplay_n as nat, b.combined_cardplay_sum as nat,
            b.combined_cardplay_n as nat, 0, 0);
    }
    if cp_lt {
        return false;
    }
    match kind {
        RankKind::Category => false,
        RankKind::Lesson => a.deal_count > b.deal_count,
        RankKind::Topic => {
            let bid_gt = mean_gt_of(a.combined_bidding_sum, a.combined_bidding_n, b.combined_bidding_sum, b.combined_bidding_n);
            let bid_lt = mean_gt_of(b.combined_bidding_sum, b.combined_bidding_n, a.combined_bidding_sum, a.combined_bidding_n);
            proof {
                lemma_mean_order(a.combined_bidding_sum as nat, a.combined_bidding_n as nat, b.combined_bidding_sum as nat,
                    b.combined_bidding_n as nat, 0, 0);
            }
            bid_gt || (!bid_lt && a.deal_count > b.deal_count)
        },
    }
}

// ---------------------------------------------------------------------------
// Rank order
// ---------------------------------------------------------------------------

/// Whether entry `k` takes part: every entry, or those of category `cat`.
pub open spec fn selected(e: Seq<(String, TopicStats)>, cat: Option<Seq<char>>, k: int) -> bool {
    match cat {
        Some(c) => e[k].1.category@ == c,
        None => true,
    }
}

/// Entry `a` comes before entry `b`: it ranks higher, or equally and comes
/// first in the map.
pub open spec fn rank_before(e: Seq<(String, TopicStats)>, kind: RankKind, a: int, b: int) -> bool {
    rank_gt(kind, e[a].1, e[b].1) || (rank_eq(kind, e[a].1, e[b].1) && a < b)
}

/// `ord` lists the taking-part entries among the first `k`, each once,
/// hardest first, equally ranked ones in map order.
pub open spec fn ranked_upto(e: Seq<(String, TopicStats)>, kind: RankKind, cat: Option<Seq<char>>, k: int, ord: Seq<usize>) -> bool {
    &&& forall|i: int| 0 <= i < ord.len() ==> (#[trigger] ord[i] as int) < k && selected(e, cat, ord[i] as int)
    &&& forall|x: int| 0 <= x < k && selected(e, cat, x) ==> exists|i: int| 0 <= i < ord.len() && #[trigger] ord[i] == x
    &&& forall|i: int, j: int| 0 <= i < j < ord.len() ==> rank_before(e, kind, #[trigger] ord[i] as int, #[trigger] ord[j] as int)
}

/// `ord` lists the taking-part entries, each once, hardest first, equally
/// ranked ones in map order (a stable sort by rank).
pub open spec fn ranked(e: Seq<(String, TopicStats)>, kind: RankKind, cat: Option<Seq<char>>, ord: Seq<usize>) -> bool {
    ranked_upto(e, kind, cat, e.len() as int, ord)
}

/// Where entry `k` goes among `ord`: before the first entry it ranks above.
pub open spec fn insert_pos(e: Seq<(String, TopicStats)>, kind: RankKind, ord: Seq<usize>, k: int) -> int
    decreases ord.len(),
{
    if ord.len() == 0 {
        0
    } else if rank_gt(kind, e[k].1, e[ord[0] as int].1) {
        0
    } else {
        1 + insert_pos(e, kind, ord.drop_first(), k)
    }
}

/// The rank order of the first `k` entries, each inserted in turn after
/// those that rank at least as high.
pub open spec fn rank_order_upto(e: Seq<(String, TopicStats)>, kind: RankKind, cat: Option<Seq<char>>, k: nat) -> Seq<usize>
    decreases k,
{
    if k == 0 {
        seq![]
    } else {
        let prev = rank_order_upto(e, kind, cat, (k - 1) as nat);
        if selected(e, cat, k - 1) {
            prev.insert(insert_pos(e, kind, prev, k - 1), (k - 1) as usize)
        } else {
            prev
        }
    }
}

/// The rank order of the taking-part entries.
#[verifier::opaque]
pub open spec fn rank_order(e: Seq<(String, TopicStats)>, kind: RankKind, cat: Option<Seq<char>>) -> Seq<usize> {
    rank_order_upto(e, kind, cat, e.len())
}

proof fn lemma_insert_pos(e: Seq<(String, TopicStats)>, kind: RankKind, ord: Seq<usize>, k: int)
    requires
        forall|i: int| 0 <= i < ord.len() ==> (#[trigger] ord[i] as int) < e.len(),
        0 <= k < e.len(),
    ensures
        0 <= insert_pos(e, kind, ord, k) <= ord.len(),
        forall|i: int| 0 <= i < insert_pos(e, kind, ord, k) ==> !rank_gt(kind, e[k].1, e[#[trigger] ord[i] as int].1),
        insert_pos(e, kind, ord, k) < ord.len() ==> rank_gt(kind, e[k].1, e[ord[insert_pos(e, kind, ord, k)] as int].1),
    decreases ord.len(),
{
    if ord.len() > 0 && !rank_gt(kind, e[k].1, e[ord[0] as int].1) {
        let rest = ord.drop_first();
        assert forall|i: int| 0 <= i < rest.len() implies (#[trigger] rest[i] as int) < e.len() by {
            assert(rest[i] == ord[i + 1]);
        }
        lemma_insert_pos(e, kind, rest, k);
        assert forall|i: int| 0 <= i < insert_pos(e, kind, ord, k) implies !rank_gt(kind, e[k].1, e[#[trigger] ord[i] as int].1) by {
            if i > 0 {
                assert(ord[i] == rest[i - 1]);
            }
        }
    }
}

#[verifier::rlimit(40)]
proof fn lemma_step_range(e: Seq<(String, TopicStats)>, kind: RankKind, cat: Option<Seq<char>>, k: int, prev: Seq<usize>, pos: int)
    requires
        0 <= k < e.len() <= usize::MAX,
        selected(e, cat, k),
        0 <= pos <= prev.len(),
        ranked_upto(e, kind, cat, k, prev),
    ensures
        forall|i: int| 0 <= i < prev.insert(pos, k as usize).len() ==> (#[trigger] prev.insert(pos, k as usize)[i] as int) < k + 1
            && selected(e, cat, prev.insert(pos, k as usize)[i] as int),
{
    let ord = prev.insert(pos, k as usize);
    assert forall|i: int| 0 <= i < ord.len() implies (#[trigger] ord[i] as int) < k + 1 && selected(e, cat, ord[i] as int) by {
        if i < pos {
            assert(ord[i] == prev[i]);
        } else if i > pos {
            assert(ord[i] == prev[i - 1]);
        }
    }
}

#[verifier::rlimit(40)]
proof fn lemma_step_complete(e: Seq<(String, TopicStats)>, kind: RankKind, cat: Option<Seq<char>>, k: int, prev: Seq<usize>, pos: int)
    requires
        0 <= k < e.len() <= usize::MAX,
        selected(e, cat, k),
        0 <= pos <= prev.len(),
        ranked_upto(e, kind, cat, k, prev),
    ensures
        forall|x: int| 0 <= x < k + 1 && selected(e, cat, x) ==> exists|i: int| 0 <= i < prev.insert(pos, k as usize).len()
            && #[trigger] prev.insert(pos, k as usize)[i] == x,
{
    let ord = prev.insert(pos, k as usize);
    assert forall|x: int| 0 <= x < k + 1 && selected(e, cat, x) implies exists|i: int| 0 <= i < ord.len() && #[trigger] ord[i] == x by {
        if x == k {
            assert(ord[pos] == x);
        } else {
            let i = choose|i: int| 0 <= i < prev.len() && #[trigger] prev[i] == x;
            if i < pos {
                assert(ord[i] == x);
            } else {
                assert(ord[i + 1] == x);
            }
        }
    }
}

#[verifier::rlimit(40)]
proof fn lemma_step_sorted(e: Seq<(String, TopicStats)>, kind: RankKind, cat: Option<Seq<char>>, k: int, prev: Seq<usize>)
    requires
        0 <= k < e.len() <= usize::MAX,
        ranked_upto(e, kind, cat, k, prev),
    ensures
        forall|i: int, j: int| 0 <= i < j < prev.insert(insert_pos(e, kind, prev, k), k as usize).len() ==> rank_before(e, kind,
            #[trigger] prev.insert(insert_pos(e, kind, prev, k), k as usize)[i] as int,
            #[trigger] prev.insert(insert_pos(e, kind, prev, k), k as usize)[j] as int),
{
    let pos = insert_pos(e, kind, prev, k);
    lemma_insert_pos(e, kind, prev, k);
    let ord = prev.insert(pos, k as usize);
    assert forall|i: int, j: int| 0 <= i < j < ord.len() implies rank_before(e, kind, #[trigger] ord[i] as int, #[trigger] ord[j] as int) by {
        if j < pos {
            assert(ord[i] == prev[i] && ord[j] == prev[j]);
        } else if j == pos {
            assert(ord[i] == prev[i]);
            lemma_rank_order(kind, e[k].1, e[prev[i] as int].1, e[prev[i] as int].1);
        } else if i < pos {
            assert(ord[i] == prev[i] && ord[j] == prev[j - 1]);
        } else if i == pos {
            assert(ord[j] == prev[j - 1]);
            let first = prev[pos] as int;
            let other = prev[j - 1] as int;
            if j - 1 > pos {
                assert(rank_before(e, kind, first, other));
                lemma_rank_order(kind, e[k].1, e[first].1, e[other].1);
            }
        } else {
            assert(ord[i] == prev[i - 1] && ord[j] == prev[j - 1]);
        }
    }
}

/// The rank order is the stable sort by rank: it lists every taking-part
/// entry once, hardest first, equally ranked ones in map order.
pub proof fn lemma_rank_order_ranked(e: Seq<(String, TopicStats)>, kind: RankKind, cat: Option<Seq<char>>, k: nat)
    requires
        k <= e.len() <= usize::MAX,
    ensures
        ranked_upto(e, kind, cat, k as int, rank_order_upto(e, kind, cat, k)),
    decreases k,
{
    if k > 0 {
        let prev = rank_order_upto(e, kind, cat, (k - 1) as nat);
        lemma_rank_order_ranked(e, kind, cat, (k - 1) as nat);
        if selected(e, cat, k - 1) {
            let pos = insert_pos(e, kind, prev, k - 1);
            lemma_insert_pos(e, kind, prev, k - 1);
            lemma_step_range(e, kind, cat, k - 1, prev, pos);
            lemma_step_complete(e, kind, cat, k - 1, prev, pos);
            lemma_step_sorted(e, kind, cat, k - 1, prev);
        }
    }
}

/// The rank order is the stable sort by rank.
pub proof fn lemma_rank_order_is_ranked(e: Seq<(String, TopicStats)>, kind: RankKind, cat: Option<Seq<char>>)
    requires
        e.len() <= usize::MAX,
    ensures
        ranked(e, kind, cat, rank_order(e, kind, cat)),
{
    reveal(rank_order);
    lemma_rank_order_ranked(e, kind, cat, e.len());
}

/// Computes `rank_order(e, kind, cat)`.
#[verifier::rlimit(40)]
pub fn rank_order_of(e: &Vec<(String, TopicStats)>, kind: RankKind, cat: Option<&String>) -> (ord: Vec<usize>)
    ensures
        ord@ == rank_order(e@, kind, match cat { Some(c) => Some(c@), None => None }),
{
    let ghost c = match cat { Some(c) => Some(c@), None => None };
    let mut ord: Vec<usize> = Vec::new();
    let mut k: usize = 0;
    while k < e.len()
        invariant
            k <= e.len(),
            c == match cat { Some(c) => Some(c@), None => None::<Seq<char>> },
            ord@ == rank_order_upto(e@, kind, c, k as nat),
            forall|i: int| 0 <= i < ord@.len() ==> (#[trigger] ord@[i] as int) < k,
        decreases e.len() - k,
    {
        let take = match cat {
            Some(cc) => crate::text::str_eq(e[k].1.category.as_str(), cc.as_str()),
            None => true,
        };
        if take {
            let ghost prev = ord@;
            let mut pos: usize = 0;
            let mut found = false;
            assert(prev.skip(0) =~= prev);
            while pos < ord.len() && !found
                invariant
                    pos <= ord.len(),
                    k < e.len(),
                    ord@ == prev,
                    forall|i: int| 0 <= i < ord@.len() ==> (#[trigger] ord@[i] as int) < k,
                    !found ==> insert_pos(e@, kind, prev, k as int) == pos + insert_pos(e@, kind, prev.skip(pos as int), k as int),
                    found ==> insert_pos(e@, kind, prev, k as int) == pos,
                decreases ord.len() - pos + if found { 0int } else { 1int },
            {
                assert(prev.skip(pos as int)[0] == prev[pos as int]);
                if rank_gt_of(kind, &e[k].1, &e[ord[pos]].1) {
                    found = true;
                } else {
                    assert(prev.skip(pos as int).drop_first() =~= prev.skip(pos + 1));
                    pos = pos + 1;
                }
            }
            proof {
                if !found {
                    assert(prev.skip(pos as int).len() == 0);
                }
            }
            ord.insert(pos, k);
        }
        k = k + 1;
        assert forall|i: int| 0 <= i < ord@.len() implies (#[trigger] ord@[i] as int) < k by {
            if take {
                let prev = rank_order_upto(e@, kind, c, (k - 1) as nat);
                let pos = insert_pos(e@, kind, prev, k - 1);
                assert(ord@ == prev.insert(pos, (k - 1) as usize));
                if i < pos {
                    assert(ord@[i] == prev[i]);
                } else if i > pos {
                    assert(ord@[i] == prev[i - 1]);
                }
            }
        }
    }
    assert(e@.len() == e.len());
    proof {
        reveal(rank_order);
    }
    ord
}

} // verus!
