use vstd::prelude::*;
use vstd::multiset::Multiset;
use core::cmp::Ordering;

use crate::card::Card;
use crate::card::Rank;
use crate::card::lemma_rank_of_ord_ord;
use crate::card::lemma_rank_ord_of_ord;
use crate::card::rank_of_ord;
use crate::card::rank_ord;
use crate::combination::Combination;
use crate::combination::cat_ord;
use crate::combination::tie_fields;
use crate::combination::classify_spec;
use crate::combination::combo_cmp;
use crate::combination::count_ord;
use crate::combination::is_run;
use crate::combination::is_wheel;
use crate::combination::lemma_cmp_is_key_order;
use crate::combination::max_present_from;
use crate::combination::max_with_count_from;
use crate::combination::min_with_count_from;
use crate::combination::num_with_count_from;
use crate::combination::key_of;
use crate::combination::run_low_from;
use crate::combination::suited;
use crate::game::drop2;
use crate::game::is_best_choice_of_five;
use crate::game::is_best_omaha;
use crate::game::omaha_five;

verus! {

// ------------------------------------------------------------------
// Laws of the classifier and the comparator.
//
// The classification of a hand depends only on its rank counts and on
// whether its suits agree, so listing the same five cards in another
// order cannot change it; and the comparator is a total order with the
// wheel as the weakest straight.
// ------------------------------------------------------------------

/// The number of cards of rank ordinal `v` in a multiset of cards: one
/// count per suit.
pub open spec fn rank_multiset_count(m: Multiset<Card>, v: int) -> nat {
    m.count(Card(rank_of_ord(v), crate::card::Suit::Diamonds)) + m.count(
        Card(rank_of_ord(v), crate::card::Suit::Clubs),
    ) + m.count(Card(rank_of_ord(v), crate::card::Suit::Hearts)) + m.count(
        Card(rank_of_ord(v), crate::card::Suit::Spades),
    )
}

/// The rank count of a hand is a function of its card multiset alone.
proof fn lemma_count_ord_multiset(h: Seq<Card>, v: int)
    requires
        2 <= v <= 14,
    ensures
        count_ord(h, v) == rank_multiset_count(h.to_multiset(), v),
    decreases h.len(),
{
    broadcast use vstd::seq_lib::group_to_multiset_ensures;

    if h.len() == 0 {
        assert(!h.contains(Card(rank_of_ord(v), crate::card::Suit::Diamonds)));
        assert(!h.contains(Card(rank_of_ord(v), crate::card::Suit::Clubs)));
        assert(!h.contains(Card(rank_of_ord(v), crate::card::Suit::Hearts)));
        assert(!h.contains(Card(rank_of_ord(v), crate::card::Suit::Spades)));
    } else {
        let d = h.drop_last();
        let c = h.last();
        lemma_count_ord_multiset(d, v);
        assert(d.push(c) =~= h);
        assert(d.push(c).to_multiset() =~= d.to_multiset().insert(c));
        lemma_rank_ord_of_ord(v);
        if rank_ord(c.0) == v {
            lemma_rank_of_ord_ord(c.0);
        }
    }
}

/// Hands with equal card multisets have equal rank counts.
proof fn lemma_counts_equal(h1: Seq<Card>, h2: Seq<Card>)
    requires
        h1.to_multiset() == h2.to_multiset(),
    ensures
        forall|u: int| 2 <= u <= 14 ==> count_ord(h1, u) == count_ord(h2, u),
{
    assert forall|u: int| 2 <= u <= 14 implies count_ord(h1, u) == count_ord(h2, u) by {
        lemma_count_ord_multiset(h1, u);
        lemma_count_ord_multiset(h2, u);
    }
}

/// Hands with equal card multisets agree on whether all suits match.
proof fn lemma_suited_half(h1: Seq<Card>, h2: Seq<Card>)
    requires
        h1.to_multiset() == h2.to_multiset(),
        h1.len() > 0,
        h2.len() > 0,
        suited(h1),
    ensures
        suited(h2),
{
    broadcast use vstd::seq_lib::group_to_multiset_ensures;

    assert forall|i: int| 0 <= i < h2.len() implies (#[trigger] h2[i]).1 == h2[0].1 by {
        assert(h2.contains(h2[i]));
        assert(h2.to_multiset().count(h2[i]) > 0);
        assert(h1.to_multiset().count(h2[i]) > 0);
        assert(h1.contains(h2[i]));
        let j = choose|j: int| 0 <= j < h1.len() && h1[j] == h2[i];
        assert(h1[j].1 == h1[0].1);
        assert(h2.contains(h2[0]));
        assert(h2.to_multiset().count(h2[0]) > 0);
        assert(h1.to_multiset().count(h2[0]) > 0);
        assert(h1.contains(h2[0]));
        let j0 = choose|j0: int| 0 <= j0 < h1.len() && h1[j0] == h2[0];
        assert(h1[j0].1 == h1[0].1);
    }
}

/// The descending count scan depends only on the counts.
proof fn lemma_max_from_eq(h1: Seq<Card>, h2: Seq<Card>, n: nat, v: int)
    requires
        v <= 14,
        forall|u: int| 2 <= u <= 14 ==> count_ord(h1, u) == count_ord(h2, u),
    ensures
        max_with_count_from(h1, n, v) == max_with_count_from(h2, n, v),
    decreases v,
{
    if v > 1 {
        lemma_max_from_eq(h1, h2, n, v - 1);
    }
}

/// The ascending count scan depends only on the counts.
proof fn lemma_min_from_eq(h1: Seq<Card>, h2: Seq<Card>, n: nat, v: int)
    requires
        2 <= v,
        forall|u: int| 2 <= u <= 14 ==> count_ord(h1, u) == count_ord(h2, u),
    ensures
        min_with_count_from(h1, n, v) == min_with_count_from(h2, n, v),
    decreases 15 - v,
{
    if v <= 14 {
        lemma_min_from_eq(h1, h2, n, v + 1);
    }
}

/// The count tally depends only on the counts.
proof fn lemma_num_from_eq(h1: Seq<Card>, h2: Seq<Card>, n: nat, v: int)
    requires
        2 <= v,
        forall|u: int| 2 <= u <= 14 ==> count_ord(h1, u) == count_ord(h2, u),
    ensures
        num_with_count_from(h1, n, v) == num_with_count_from(h2, n, v),
    decreases 15 - v,
{
    if v <= 14 {
        lemma_num_from_eq(h1, h2, n, v + 1);
    }
}

/// The highest present rank depends only on the counts.
proof fn lemma_max_present_eq(h1: Seq<Card>, h2: Seq<Card>, v: int)
    requires
        v <= 14,
        forall|u: int| 2 <= u <= 14 ==> count_ord(h1, u) == count_ord(h2, u),
    ensures
        max_present_from(h1, v) == max_present_from(h2, v),
    decreases v,
{
    if v > 2 {
        lemma_max_present_eq(h1, h2, v - 1);
    }
}

/// The run scan depends only on the counts.
proof fn lemma_run_low_eq(h1: Seq<Card>, h2: Seq<Card>, lo: int)
    requires
        2 <= lo,
        forall|u: int| 2 <= u <= 14 ==> count_ord(h1, u) == count_ord(h2, u),
    ensures
        run_low_from(h1, lo) == run_low_from(h2, lo),
    decreases 11 - lo,
{
    if lo <= 10 {
        assert(is_run(h1, lo) <==> is_run(h2, lo));
        lemma_run_low_eq(h1, h2, lo + 1);
    }
}

/// Classification is permutation-invariant: the same five cards listed
/// in any order classify to the identical combination, since only the
/// rank counts and the suit agreement enter the result.
pub proof fn lemma_classify_permutation_invariant(h1: Seq<Card>, h2: Seq<Card>)
    requires
        h1.to_multiset() == h2.to_multiset(),
        h1.len() == 5,
    ensures
        classify_spec(h1) == classify_spec(h2),
{
    broadcast use vstd::seq_lib::group_to_multiset_ensures;

    assert(h1.to_multiset().len() == h1.len());
    assert(h2.to_multiset().len() == h2.len());
    assert(h2.len() == 5);
    lemma_counts_equal(h1, h2);
    if suited(h1) {
        lemma_suited_half(h1, h2);
    }
    if suited(h2) {
        lemma_suited_half(h2, h1);
    }
    assert(is_wheel(h1) <==> is_wheel(h2));
    lemma_max_from_eq(h1, h2, 1, 14);
    lemma_max_from_eq(h1, h2, 2, 14);
    lemma_max_from_eq(h1, h2, 3, 14);
    lemma_max_from_eq(h1, h2, 4, 14);
    lemma_min_from_eq(h1, h2, 2, 2);
    lemma_num_from_eq(h1, h2, 2, 2);
    lemma_max_present_eq(h1, h2, 14);
    lemma_run_low_eq(h1, h2, 2);
}

/// Category dominance: a combination of a strictly weaker category
/// always compares less than one of a stronger category, whatever the
/// tie-break ranks.
pub proof fn lemma_category_dominance(a: Combination, b: Combination)
    requires
        cat_ord(a) < cat_ord(b),
    ensures
        combo_cmp(a, b) == Ordering::Less,
{
}

/// Two combinations compare as equal exactly when they are the same
/// value: the same category with the same tie-break ranks.
#[verifier::rlimit(60)]
pub proof fn lemma_compare_equal_iff(a: Combination, b: Combination)
    ensures
        (combo_cmp(a, b) == Ordering::Equal) <==> (a == b),
{
    if combo_cmp(a, b) == Ordering::Equal {
        assert(cat_ord(a) == cat_ord(b));
        assert(tie_fields(a) == tie_fields(b));
        match (a, b) {
            (Combination::Straight { rank: r1 }, Combination::Straight { rank: r2 }) => {
                assert(r1 == r2);
            },
            (
                Combination::StraightFlush { rank: r1 },
                Combination::StraightFlush { rank: r2 },
            ) => {
                assert(r1 == r2);
            },
            _ => {
            },
        }
    }
}

/// Comparing a combination with itself yields equality: classifying a
/// hand twice compares as a tie.
pub proof fn lemma_compare_reflexive(c: Combination)
    ensures
        combo_cmp(c, c) == Ordering::Equal,
{
}

/// The comparator is antisymmetric: swapping the sides flips the
/// outcome.
pub proof fn lemma_compare_antisymmetric(a: Combination, b: Combination)
    ensures
        combo_cmp(a, b) == Ordering::Less <==> combo_cmp(b, a) == Ordering::Greater,
        combo_cmp(a, b) == Ordering::Equal <==> combo_cmp(b, a) == Ordering::Equal,
{
    lemma_cmp_is_key_order(a, b);
    lemma_cmp_is_key_order(b, a);
}

/// The comparator is transitive, so it is a total order on
/// combinations.
pub proof fn lemma_compare_transitive(a: Combination, b: Combination, c: Combination)
    requires
        combo_cmp(a, b) != Ordering::Greater,
        combo_cmp(b, c) != Ordering::Greater,
    ensures
        combo_cmp(a, c) != Ordering::Greater,
{
    lemma_cmp_is_key_order(a, b);
    lemma_cmp_is_key_order(b, c);
    lemma_cmp_is_key_order(a, c);
}

/// The wheel law: the Ace-tagged wheel straight compares strictly below
/// every other straight, the Two-high straight included, and likewise
/// among straight flushes.
pub proof fn lemma_wheel_weakest_straight(r: Rank)
    requires
        r != Rank::Ace,
    ensures
        combo_cmp(Combination::Straight { rank: Rank::Ace }, Combination::Straight { rank: r })
            == Ordering::Less,
        combo_cmp(
            Combination::StraightFlush { rank: Rank::Ace },
            Combination::StraightFlush { rank: r },
        ) == Ordering::Less,
{
}

/// The best-hand characterization pins one value: any two combinations
/// that are both attained by a legal five-card choice and dominate every
/// legal choice are the same combination.
pub proof fn lemma_best_choice_unique(all: Seq<Card>, c1: Combination, c2: Combination)
    requires
        is_best_choice_of_five(all, c1),
        is_best_choice_of_five(all, c2),
    ensures
        c1 == c2,
{
    let (i1, j1) = choose|i: int, j: int|
        0 <= i < j < all.len() && c1 == classify_spec(#[trigger] drop2(all, i, j));
    let (i2, j2) = choose|i: int, j: int|
        0 <= i < j < all.len() && c2 == classify_spec(#[trigger] drop2(all, i, j));
    assert(key_of(classify_spec(drop2(all, i1, j1))) <= key_of(c2));
    assert(key_of(classify_spec(drop2(all, i2, j2))) <= key_of(c1));
    lemma_cmp_is_key_order(c1, c2);
    lemma_compare_equal_iff(c1, c2);
}

/// The Omaha best-hand characterization pins one value as well.
pub proof fn lemma_best_omaha_unique(
    board: Seq<Card>,
    hole: Seq<Card>,
    c1: Combination,
    c2: Combination,
)
    requires
        is_best_omaha(board, hole, c1),
        is_best_omaha(board, hole, c2),
    ensures
        c1 == c2,
{
    let (i1, j1, p1, q1) = choose|i: int, j: int, p: int, q: int|
        0 <= i < j < hole.len() && 0 <= p < q < board.len() && c1 == classify_spec(
            #[trigger] omaha_five(board, hole, i, j, p, q),
        );
    let (i2, j2, p2, q2) = choose|i: int, j: int, p: int, q: int|
        0 <= i < j < hole.len() && 0 <= p < q < board.len() && c2 == classify_spec(
            #[trigger] omaha_five(board, hole, i, j, p, q),
        );
    assert(key_of(classify_spec(omaha_five(board, hole, i1, j1, p1, q1))) <= key_of(c2));
    assert(key_of(classify_spec(omaha_five(board, hole, i2, j2, p2, q2))) <= key_of(c1));
    lemma_cmp_is_key_order(c1, c2);
    lemma_compare_equal_iff(c1, c2);
}

} // verus!


