use vstd::prelude::*;
use core::cmp::Ordering;

use crate::card::Card;
use crate::card::Rank;
use crate::card::rank_of_ord;
use crate::card::rank_ord;
use crate::game::Variant;

verus! {

/// A classified poker hand: one of the nine categories, each carrying
/// exactly the ranks needed to order it against another hand of the same
/// category.
///
/// For `Straight` and `StraightFlush` the `rank` field holds the lowest
/// card of the five-card run, except for the ace-low wheel (A-2-3-4-5),
/// which is tagged `Ace` by convention yet compares below every other
/// straight.
#[derive(Debug, Clone, Copy, PartialEq, Eq, Hash, Structural)]
pub enum Combination {
    HighCard { rank: Rank },
    Pair { rank: Rank, kicker: Rank },
    TwoPairs { low: Rank, high: Rank, kicker: Rank },
    ThreeOfAKind { rank: Rank, kicker: Rank },
    Straight { rank: Rank },
    Flush { rank: Rank },
    FullHouse { two: Rank, three: Rank },
    FourOfAKind { rank: Rank, kicker: Rank },
    StraightFlush { rank: Rank },
}

// ------------------------------------------------------------------
// The rank-frequency model.
//
// Every category is defined through the number of cards of each rank
// ordinal (2 for Two up to 14 for Ace) and through whether all five
// cards share one suit.  Stating the contracts over these counts keeps
// them independent of the order in which the five cards are listed.
// ------------------------------------------------------------------

/// How many cards of rank ordinal `v` the hand holds.
pub open spec fn count_ord(h: Seq<Card>, v: int) -> nat
    decreases h.len(),
{
    if h.len() == 0 {
        0
    } else {
        count_ord(h.drop_last(), v) + (if rank_ord(h.last().0) == v {
            1nat
        } else {
            0nat
        })
    }
}

/// Whether all cards of the hand share one suit.
pub open spec fn suited(h: Seq<Card>) -> bool {
    forall|i: int| 0 <= i < h.len() ==> (#[trigger] h[i]).1 == h[0].1
}

/// The largest rank ordinal in 2..=`v` whose count equals `n`, or 0 if
/// there is none.
pub open spec fn max_with_count_from(h: Seq<Card>, n: nat, v: int) -> int
    decreases v,
{
    if v <= 1 {
        0
    } else if count_ord(h, v) == n {
        v
    } else {
        max_with_count_from(h, n, v - 1)
    }
}

/// The largest rank ordinal whose count equals `n`, or 0 if there is none.
pub open spec fn max_with_count(h: Seq<Card>, n: nat) -> int {
    max_with_count_from(h, n, 14)
}

/// The smallest rank ordinal in `v`..=14 whose count equals `n`, or 0 if
/// there is none.
pub open spec fn min_with_count_from(h: Seq<Card>, n: nat, v: int) -> int
    decreases 15 - v,
{
    if v > 14 {
        0
    } else if count_ord(h, v) == n {
        v
    } else {
        min_with_count_from(h, n, v + 1)
    }
}

/// The smallest rank ordinal whose count equals `n`, or 0 if there is none.
pub open spec fn min_with_count(h: Seq<Card>, n: nat) -> int {
    min_with_count_from(h, n, 2)
}

/// How many rank ordinals in `v`..=14 have count `n`.
pub open spec fn num_with_count_from(h: Seq<Card>, n: nat, v: int) -> nat
    decreases 15 - v,
{
    if v > 14 {
        0
    } else {
        (if count_ord(h, v) == n {
            1nat
        } else {
            0nat
        }) + num_with_count_from(h, n, v + 1)
    }
}

/// How many distinct rank ordinals have count `n`.
pub open spec fn num_with_count(h: Seq<Card>, n: nat) -> nat {
    num_with_count_from(h, n, 2)
}

/// Whether some rank occurs exactly `n` times.
pub open spec fn has_count(h: Seq<Card>, n: nat) -> bool {
    max_with_count(h, n) != 0
}

/// The largest rank ordinal present among 2..=`v`, or 2 if none is.
pub open spec fn max_present_from(h: Seq<Card>, v: int) -> int
    decreases v,
{
    if v <= 2 {
        2
    } else if count_ord(h, v) > 0 {
        v
    } else {
        max_present_from(h, v - 1)
    }
}

/// The largest rank ordinal present in the hand.
pub open spec fn max_rank_ord(h: Seq<Card>) -> int {
    max_present_from(h, 14)
}

/// The count profile of the ace-low wheel straight A-2-3-4-5.
pub open spec fn wheel_counts(v: int) -> nat {
    if v == 14 || 2 <= v <= 5 {
        1
    } else {
        0
    }
}

/// The count profile of the five-card run starting at ordinal `lo`.
pub open spec fn run_counts(lo: int, v: int) -> nat {
    if lo <= v < lo + 5 {
        1
    } else {
        0
    }
}

/// Whether the hand is exactly the ace-low wheel A-2-3-4-5.
pub open spec fn is_wheel(h: Seq<Card>) -> bool {
    forall|v: int| 2 <= v <= 14 ==> #[trigger] count_ord(h, v) == wheel_counts(v)
}

/// Whether the hand is exactly the run `lo`..`lo`+4.
pub open spec fn is_run(h: Seq<Card>, lo: int) -> bool {
    forall|v: int| 2 <= v <= 14 ==> #[trigger] count_ord(h, v) == run_counts(lo, v)
}

/// The smallest ordinal in `lo`..=10 starting a run the hand consists of,
/// or 0 if there is none.  A hand can be at most one run, so the scan
/// order never matters.
pub open spec fn run_low_from(h: Seq<Card>, lo: int) -> int
    decreases 11 - lo,
{
    if lo > 10 {
        0
    } else if is_run(h, lo) {
        lo
    } else {
        run_low_from(h, lo + 1)
    }
}

/// The ordinal of the bottom card of the hand's run, or 0 if the hand is
/// neither a run nor the wheel.
pub open spec fn run_low(h: Seq<Card>) -> int {
    run_low_from(h, 2)
}

/// Whether the five ranks form a consecutive run, the wheel included.
pub open spec fn is_straight(h: Seq<Card>) -> bool {
    is_wheel(h) || run_low(h) != 0
}

/// The rank reported for a straight: the bottom of the run, or Ace for
/// the wheel.
pub open spec fn straight_rank(h: Seq<Card>) -> Rank {
    if is_wheel(h) {
        Rank::Ace
    } else {
        rank_of_ord(run_low(h))
    }
}

// ------------------------------------------------------------------
// One candidate-category test per poker category, strongest first.
// Each spec function says exactly when its category matches and which
// tie-break ranks it reports; `classify_spec` chains them.
// ------------------------------------------------------------------

/// Straight flush: one suit and a consecutive run.
pub open spec fn straight_flush_opt(h: Seq<Card>) -> Option<Combination> {
    if suited(h) && is_straight(h) {
        Some(Combination::StraightFlush { rank: straight_rank(h) })
    } else {
        None
    }
}

/// Four of a kind: a rank counted four times, plus a leftover rank.
pub open spec fn four_of_a_kind_opt(h: Seq<Card>) -> Option<Combination> {
    if has_count(h, 4) && has_count(h, 1) {
        Some(
            Combination::FourOfAKind {
                rank: rank_of_ord(max_with_count(h, 4)),
                kicker: rank_of_ord(max_with_count(h, 1)),
            },
        )
    } else {
        None
    }
}

/// Full house: a rank counted three times and a rank counted twice.
pub open spec fn full_house_opt(h: Seq<Card>) -> Option<Combination> {
    if has_count(h, 3) && has_count(h, 2) {
        Some(
            Combination::FullHouse {
                two: rank_of_ord(max_with_count(h, 2)),
                three: rank_of_ord(max_with_count(h, 3)),
            },
        )
    } else {
        None
    }
}

/// Flush: one suit; reports the highest rank present.
pub open spec fn flush_opt(h: Seq<Card>) -> Option<Combination> {
    if suited(h) {
        Some(Combination::Flush { rank: rank_of_ord(max_rank_ord(h)) })
    } else {
        None
    }
}

/// Straight: a consecutive run, the wheel included.
pub open spec fn straight_opt(h: Seq<Card>) -> Option<Combination> {
    if is_straight(h) {
        Some(Combination::Straight { rank: straight_rank(h) })
    } else {
        None
    }
}

/// Three of a kind: a rank counted three times plus singleton ranks; the
/// kicker is the highest singleton.
pub open spec fn three_of_a_kind_opt(h: Seq<Card>) -> Option<Combination> {
    if has_count(h, 3) && has_count(h, 1) {
        Some(
            Combination::ThreeOfAKind {
                rank: rank_of_ord(max_with_count(h, 3)),
                kicker: rank_of_ord(max_with_count(h, 1)),
            },
        )
    } else {
        None
    }
}

/// Two pairs: exactly two ranks counted twice; the kicker is the highest
/// singleton rank.
pub open spec fn two_pairs_opt(h: Seq<Card>) -> Option<Combination> {
    if num_with_count(h, 2) == 2 && has_count(h, 1) {
        Some(
            Combination::TwoPairs {
                low: rank_of_ord(min_with_count(h, 2)),
                high: rank_of_ord(max_with_count(h, 2)),
                kicker: rank_of_ord(max_with_count(h, 1)),
            },
        )
    } else {
        None
    }
}

/// Pair: a rank counted twice plus singleton ranks; the kicker is the
/// highest singleton.
pub open spec fn pair_opt(h: Seq<Card>) -> Option<Combination> {
    if has_count(h, 2) && has_count(h, 1) {
        Some(
            Combination::Pair {
                rank: rank_of_ord(max_with_count(h, 2)),
                kicker: rank_of_ord(max_with_count(h, 1)),
            },
        )
    } else {
        None
    }
}

/// High card: always matches; reports the highest rank present.
pub open spec fn high_card_opt(h: Seq<Card>) -> Option<Combination> {
    Some(Combination::HighCard { rank: rank_of_ord(max_rank_ord(h)) })
}

/// The classification of a five-card hand: the strongest category test
/// that matches, tried from straight flush down to high card.
pub open spec fn classify_spec(h: Seq<Card>) -> Combination {
    if straight_flush_opt(h) is Some {
        straight_flush_opt(h).unwrap()
    } else if four_of_a_kind_opt(h) is Some {
        four_of_a_kind_opt(h).unwrap()
    } else if full_house_opt(h) is Some {
        full_house_opt(h).unwrap()
    } else if flush_opt(h) is Some {
        flush_opt(h).unwrap()
    } else if straight_opt(h) is Some {
        straight_opt(h).unwrap()
    } else if three_of_a_kind_opt(h) is Some {
        three_of_a_kind_opt(h).unwrap()
    } else if two_pairs_opt(h) is Some {
        two_pairs_opt(h).unwrap()
    } else if pair_opt(h) is Some {
        pair_opt(h).unwrap()
    } else {
        high_card_opt(h).unwrap()
    }
}

// ------------------------------------------------------------------
// Executable frequency analysis.
// ------------------------------------------------------------------

/// Count the cards of rank ordinal `v` by one pass over the hand.
#[verifier::loop_isolation(false)]
fn count_of(cards: &[Card; 5], v: u8) -> (n: u8)
    requires
        2 <= v <= 14,
    ensures
        n as nat == count_ord(cards@, v as int),
        n <= 5,
{
    let mut n: u8 = 0;
    let mut k: usize = 0;
    while k < 5
        invariant
            k <= 5,
            n <= k,
            cards@.len() == 5,
            2 <= v <= 14,
            n as nat == count_ord(cards@.take(k as int), v as int),
        decreases 5 - k,
    {
        proof {
            assert(cards@.take(k + 1).drop_last() =~= cards@.take(k as int));
            assert(cards@.take(k + 1).last() == cards@[k as int]);
        }
        if cards[k].0.value() == v {
            n = n + 1;
        }
        k = k + 1;
    }
    proof {
        assert(cards@.take(5) =~= cards@);
    }
    n
}

/// The largest rank ordinal with count `n`, or 0 if there is none.
#[verifier::loop_isolation(false)]
fn max_count_rank(cards: &[Card; 5], n: u8) -> (r: u8)
    ensures
        r as int == max_with_count(cards@, n as nat),
        r == 0 || 2 <= r <= 14,
{
    let mut v: u8 = 14;
    while v >= 2
        invariant
            1 <= v <= 14,
            cards@.len() == 5,
            max_with_count(cards@, n as nat) == max_with_count_from(cards@, n as nat, v as int),
        decreases v,
    {
        if count_of(cards, v) == n {
            return v;
        }
        v = v - 1;
    }
    0
}

/// The smallest rank ordinal with count `n`, or 0 if there is none.
#[verifier::loop_isolation(false)]
fn min_count_rank(cards: &[Card; 5], n: u8) -> (r: u8)
    ensures
        r as int == min_with_count(cards@, n as nat),
        r == 0 || 2 <= r <= 14,
{
    let mut v: u8 = 2;
    while v <= 14
        invariant
            2 <= v <= 15,
            cards@.len() == 5,
            min_with_count(cards@, n as nat) == min_with_count_from(cards@, n as nat, v as int),
        decreases 15 - v,
    {
        if count_of(cards, v) == n {
            return v;
        }
        v = v + 1;
    }
    0
}

/// How many distinct rank ordinals have count `n`.
#[verifier::loop_isolation(false)]
fn num_count_ranks(cards: &[Card; 5], n: u8) -> (m: u8)
    ensures
        m as nat == num_with_count(cards@, n as nat),
{
    let mut m: u8 = 0;
    let mut v: u8 = 2;
    while v <= 14
        invariant
            2 <= v <= 15,
            m < v,
            cards@.len() == 5,
            num_with_count(cards@, n as nat) == m as nat + num_with_count_from(
                cards@,
                n as nat,
                v as int,
            ),
        decreases 15 - v,
    {
        if count_of(cards, v) == n {
            m = m + 1;
        }
        v = v + 1;
    }
    m
}

/// The largest rank ordinal present in the hand.
#[verifier::loop_isolation(false)]
fn max_rank_value(cards: &[Card; 5]) -> (r: u8)
    ensures
        r as int == max_rank_ord(cards@),
        2 <= r <= 14,
{
    let mut v: u8 = 14;
    while v > 2
        invariant
            2 <= v <= 14,
            cards@.len() == 5,
            max_rank_ord(cards@) == max_present_from(cards@, v as int),
        decreases v,
    {
        if count_of(cards, v) > 0 {
            return v;
        }
        v = v - 1;
    }
    2
}

/// Whether the hand's count profile is exactly the wheel's.
#[verifier::loop_isolation(false)]
fn check_wheel(cards: &[Card; 5]) -> (b: bool)
    ensures
        b == is_wheel(cards@),
{
    let mut v: u8 = 2;
    while v <= 14
        invariant
            2 <= v <= 15,
            cards@.len() == 5,
            forall|u: int| 2 <= u < v ==> count_ord(cards@, u) == wheel_counts(u),
        decreases 15 - v,
    {
        let expected: u8 = if v == 14 || v <= 5 {
            1
        } else {
            0
        };
        if count_of(cards, v) != expected {
            proof {
                assert(count_ord(cards@, v as int) != wheel_counts(v as int));
            }
            return false;
        }
        v = v + 1;
    }
    true
}

/// Whether the hand's count profile is exactly the run starting at `lo`.
#[verifier::loop_isolation(false)]
fn check_run(cards: &[Card; 5], lo: u8) -> (b: bool)
    requires
        2 <= lo <= 10,
    ensures
        b == is_run(cards@, lo as int),
{
    let mut v: u8 = 2;
    while v <= 14
        invariant
            2 <= v <= 15,
            2 <= lo <= 10,
            cards@.len() == 5,
            forall|u: int| 2 <= u < v ==> count_ord(cards@, u) == run_counts(lo as int, u),
        decreases 15 - v,
    {
        let expected: u8 = if lo <= v && v < lo + 5 {
            1
        } else {
            0
        };
        if count_of(cards, v) != expected {
            proof {
                assert(count_ord(cards@, v as int) != run_counts(lo as int, v as int));
            }
            return false;
        }
        v = v + 1;
    }
    true
}

// ------------------------------------------------------------------
// Helper facts about the frequency scans.
// ------------------------------------------------------------------

/// A positive tally of ranks with count `n` exhibits such a rank.
proof fn lemma_num_pos_exists(h: Seq<Card>, n: nat, v: int)
    requires
        2 <= v <= 15,
        num_with_count_from(h, n, v) > 0,
    ensures
        exists|u: int| v <= u <= 14 && count_ord(h, u) == n,
    decreases 15 - v,
{
    if count_ord(h, v) == n {
        assert(v <= v <= 14 && count_ord(h, v) == n);
    } else {
        lemma_num_pos_exists(h, n, v + 1);
    }
}

/// A rank with count `n` makes the descending scan succeed.
proof fn lemma_max_from_nonzero(h: Seq<Card>, n: nat, u: int, w: int)
    requires
        2 <= u <= w <= 14,
        count_ord(h, u) == n,
    ensures
        max_with_count_from(h, n, w) != 0,
    decreases w,
{
    if count_ord(h, w) != n {
        lemma_max_from_nonzero(h, n, u, w - 1);
    }
}

/// A rank with count `n` makes the ascending scan succeed.
proof fn lemma_min_from_nonzero(h: Seq<Card>, n: nat, u: int, w: int)
    requires
        2 <= w <= u <= 14,
        count_ord(h, u) == n,
    ensures
        min_with_count_from(h, n, w) != 0,
    decreases 15 - w,
{
    if count_ord(h, w) != n {
        lemma_min_from_nonzero(h, n, u, w + 1);
    }
}

// ------------------------------------------------------------------
// The classifier.
// ------------------------------------------------------------------

impl Combination {
    /// Classify a five-card hand.  Total: every hand has at least a high
    /// card, so the chain of category tests always produces a result.
    pub fn from_variant(variant: Variant) -> (r: Combination)
        ensures
            r == classify_spec(variant.0@),
    {
        if let Some(c) = Self::try_straight_flush(variant) {
            return c;
        }
        if let Some(c) = Self::try_four_of_a_kind(variant) {
            return c;
        }
        if let Some(c) = Self::try_full_house(variant) {
            return c;
        }
        if let Some(c) = Self::try_flush(variant) {
            return c;
        }
        if let Some(c) = Self::try_straight(variant) {
            return c;
        }
        if let Some(c) = Self::try_three_of_a_kind(variant) {
            return c;
        }
        if let Some(c) = Self::try_two_pairs(variant) {
            return c;
        }
        if let Some(c) = Self::try_pair(variant) {
            return c;
        }
        Self::try_high_card(variant).unwrap()
    }

    /// Match the straight flush category: one suit and a consecutive run.
    pub fn try_straight_flush(variant: Variant) -> (r: Option<Combination>)
        ensures
            r == straight_flush_opt(variant.0@),
    {
        if Self::try_flush(variant).is_some() {
            match Self::try_straight(variant) {
                Some(Combination::Straight { rank }) => Some(
                    Combination::StraightFlush { rank },
                ),
                _ => None,
            }
        } else {
            None
        }
    }

    /// Match the four of a kind category.
    pub fn try_four_of_a_kind(variant: Variant) -> (r: Option<Combination>)
        ensures
            r == four_of_a_kind_opt(variant.0@),
    {
        let quad = max_count_rank(&variant.0, 4);
        let kicker = max_count_rank(&variant.0, 1);
        if quad != 0 && kicker != 0 {
            Some(
                Combination::FourOfAKind {
                    rank: Rank::from_ord(quad),
                    kicker: Rank::from_ord(kicker),
                },
            )
        } else {
            None
        }
    }

    /// Match the full house category.
    pub fn try_full_house(variant: Variant) -> (r: Option<Combination>)
        ensures
            r == full_house_opt(variant.0@),
    {
        let three = max_count_rank(&variant.0, 3);
        let two = max_count_rank(&variant.0, 2);
        if three != 0 && two != 0 {
            Some(
                Combination::FullHouse {
                    two: Rank::from_ord(two),
                    three: Rank::from_ord(three),
                },
            )
        } else {
            None
        }
    }

    /// Match the flush category: all five cards share one suit.
    #[verifier::loop_isolation(false)]
    pub fn try_flush(variant: Variant) -> (r: Option<Combination>)
        ensures
            r == flush_opt(variant.0@),
    {
        let cards = &variant.0;
        let mut k: usize = 1;
        while k < 5
            invariant
                1 <= k <= 5,
                cards@.len() == 5,
                forall|i: int| 0 <= i < k ==> (#[trigger] cards@[i]).1 == cards@[0].1,
            decreases 5 - k,
        {
            if !(cards[k].1 == cards[0].1) {
                assert(!suited(cards@));
                return None;
            }
            k = k + 1;
        }
        assert(suited(cards@));
        Some(Combination::Flush { rank: Rank::from_ord(max_rank_value(cards)) })
    }

    /// Match the straight category, the ace-low wheel included.
    #[verifier::loop_isolation(false)]
    pub fn try_straight(variant: Variant) -> (r: Option<Combination>)
        ensures
            r == straight_opt(variant.0@),
    {
        let cards = &variant.0;
        if check_wheel(cards) {
            return Some(Combination::Straight { rank: Rank::Ace });
        }
        let mut lo: u8 = 2;
        while lo <= 10
            invariant
                2 <= lo <= 11,
                cards@.len() == 5,
                !is_wheel(cards@),
                run_low(cards@) == run_low_from(cards@, lo as int),
            decreases 11 - lo,
        {
            if check_run(cards, lo) {
                proof {
                    assert(run_low_from(cards@, lo as int) == lo as int);
                    assert(is_straight(cards@));
                }
                return Some(Combination::Straight { rank: Rank::from_ord(lo) });
            }
            lo = lo + 1;
        }
        None
    }

    /// Match the three of a kind category.
    pub fn try_three_of_a_kind(variant: Variant) -> (r: Option<Combination>)
        ensures
            r == three_of_a_kind_opt(variant.0@),
    {
        let three = max_count_rank(&variant.0, 3);
        let kicker = max_count_rank(&variant.0, 1);
        if three != 0 && kicker != 0 {
            Some(
                Combination::ThreeOfAKind {
                    rank: Rank::from_ord(three),
                    kicker: Rank::from_ord(kicker),
                },
            )
        } else {
            None
        }
    }

    /// Match the two pairs category: exactly two ranks counted twice.
    pub fn try_two_pairs(variant: Variant) -> (r: Option<Combination>)
        ensures
            r == two_pairs_opt(variant.0@),
    {
        let pairs = num_count_ranks(&variant.0, 2);
        let kicker = max_count_rank(&variant.0, 1);
        if pairs == 2 && kicker != 0 {
            proof {
                lemma_num_pos_exists(variant.0@, 2, 2);
                let u = choose|u: int| 2 <= u <= 14 && count_ord(variant.0@, u) == 2;
                lemma_max_from_nonzero(variant.0@, 2, u, 14);
                lemma_min_from_nonzero(variant.0@, 2, u, 2);
            }
            let low = min_count_rank(&variant.0, 2);
            let high = max_count_rank(&variant.0, 2);
            Some(
                Combination::TwoPairs {
                    low: Rank::from_ord(low),
                    high: Rank::from_ord(high),
                    kicker: Rank::from_ord(kicker),
                },
            )
        } else {
            None
        }
    }

    /// Match the pair category.
    pub fn try_pair(variant: Variant) -> (r: Option<Combination>)
        ensures
            r == pair_opt(variant.0@),
    {
        let pair = max_count_rank(&variant.0, 2);
        let kicker = max_count_rank(&variant.0, 1);
        if pair != 0 && kicker != 0 {
            Some(
                Combination::Pair {
                    rank: Rank::from_ord(pair),
                    kicker: Rank::from_ord(kicker),
                },
            )
        } else {
            None
        }
    }

    /// Match the high card category; matches every hand.
    pub fn try_high_card(variant: Variant) -> (r: Option<Combination>)
        ensures
            r == high_card_opt(variant.0@),
    {
        Some(Combination::HighCard { rank: Rank::from_ord(max_rank_value(&variant.0)) })
    }
}

// ------------------------------------------------------------------
// The comparator.
//
// Categories are ranked high card < pair < two pairs < three of a kind
// < straight < flush < full house < four of a kind < straight flush; a
// stronger category always wins.  Within a category the tie-break ranks
// compare lexicographically.  The one exception is the Ace tag of a
// wheel straight, which stands for the bottom of the A-2-3-4-5 run and
// therefore compares below every other straight, Two-high included.
// ------------------------------------------------------------------

/// The strength index of a category, weakest first.
pub open spec fn cat_ord(c: Combination) -> int {
    match c {
        Combination::HighCard { .. } => 0,
        Combination::Pair { .. } => 1,
        Combination::TwoPairs { .. } => 2,
        Combination::ThreeOfAKind { .. } => 3,
        Combination::Straight { .. } => 4,
        Combination::Flush { .. } => 5,
        Combination::FullHouse { .. } => 6,
        Combination::FourOfAKind { .. } => 7,
        Combination::StraightFlush { .. } => 8,
    }
}

/// The tie-break weight of a straight's rank tag: the Ace tag marks the
/// wheel, whose run bottoms out below Two, so it weighs less than every
/// ordinary rank.
pub open spec fn straight_tie(r: Rank) -> int {
    if r == Rank::Ace {
        1
    } else {
        rank_ord(r)
    }
}

/// The three tie-break weights of a combination, most significant first;
/// unused positions weigh 0.
pub open spec fn tie_fields(c: Combination) -> (int, int, int) {
    match c {
        Combination::HighCard { rank } => (rank_ord(rank), 0, 0),
        Combination::Pair { rank, kicker } => (rank_ord(rank), rank_ord(kicker), 0),
        Combination::TwoPairs { low, high, kicker } => (
            rank_ord(high),
            rank_ord(low),
            rank_ord(kicker),
        ),
        Combination::ThreeOfAKind { rank, kicker } => (rank_ord(rank), rank_ord(kicker), 0),
        Combination::Straight { rank } => (straight_tie(rank), 0, 0),
        Combination::Flush { rank } => (rank_ord(rank), 0, 0),
        Combination::FullHouse { two, three } => (rank_ord(three), rank_ord(two), 0),
        Combination::FourOfAKind { rank, kicker } => (rank_ord(rank), rank_ord(kicker), 0),
        Combination::StraightFlush { rank } => (straight_tie(rank), 0, 0),
    }
}

/// The order of two integers.
pub open spec fn int_ord(a: int, b: int) -> Ordering {
    if a < b {
        Ordering::Less
    } else if a == b {
        Ordering::Equal
    } else {
        Ordering::Greater
    }
}

/// The total order on combinations: by category strength, then by the
/// tie-break weights lexicographically.
pub open spec fn combo_cmp(a: Combination, b: Combination) -> Ordering {
    if cat_ord(a) != cat_ord(b) {
        int_ord(cat_ord(a), cat_ord(b))
    } else {
        let (a1, a2, a3) = tie_fields(a);
        let (b1, b2, b3) = tie_fields(b);
        if a1 != b1 {
            int_ord(a1, b1)
        } else if a2 != b2 {
            int_ord(a2, b2)
        } else {
            int_ord(a3, b3)
        }
    }
}

/// A single integer that ranks a combination: category and tie-break
/// weights packed as base-15 digits.  Two combinations compare exactly
/// as their keys do.
pub open spec fn key_of(c: Combination) -> int {
    let (f1, f2, f3) = tie_fields(c);
    cat_ord(c) * 3375 + f1 * 225 + f2 * 15 + f3
}

/// Every category index lies in 0..=8 and every tie-break weight in
/// 0..=14, so the key digits never carry.
pub proof fn lemma_tie_bounds(c: Combination)
    ensures
        0 <= cat_ord(c) <= 8,
        0 <= tie_fields(c).0 <= 14,
        0 <= tie_fields(c).1 <= 14,
        0 <= tie_fields(c).2 <= 14,
{
}

/// The comparator agrees with the integer order of the keys.
pub proof fn lemma_cmp_is_key_order(a: Combination, b: Combination)
    ensures
        combo_cmp(a, b) == int_ord(key_of(a), key_of(b)),
{
    lemma_tie_bounds(a);
    lemma_tie_bounds(b);
}

// ------------------------------------------------------------------
// Executable comparison.
// ------------------------------------------------------------------

/// The strength index of this combination's category.
fn cat_value(c: &Combination) -> (v: u8)
    ensures
        v as int == cat_ord(*c),
        v <= 8,
{
    match c {
        Combination::HighCard { .. } => 0,
        Combination::Pair { .. } => 1,
        Combination::TwoPairs { .. } => 2,
        Combination::ThreeOfAKind { .. } => 3,
        Combination::Straight { .. } => 4,
        Combination::Flush { .. } => 5,
        Combination::FullHouse { .. } => 6,
        Combination::FourOfAKind { .. } => 7,
        Combination::StraightFlush { .. } => 8,
    }
}

/// The three tie-break weights of this combination.  The match is
/// exhaustive over the categories, so a variant can never silently drop
/// out of the comparison; the wheel's Ace tag is the explicit special
/// case in the straight arms.
fn tie_values(c: &Combination) -> (t: (u8, u8, u8))
    ensures
        tie_fields(*c) == (t.0 as int, t.1 as int, t.2 as int),
        t.0 <= 14 && t.1 <= 14 && t.2 <= 14,
{
    match c {
        Combination::HighCard { rank } => (rank.value(), 0, 0),
        Combination::Pair { rank, kicker } => (rank.value(), kicker.value(), 0),
        Combination::TwoPairs { low, high, kicker } => (high.value(), low.value(), kicker.value()),
        Combination::ThreeOfAKind { rank, kicker } => (rank.value(), kicker.value(), 0),
        Combination::Straight { rank } => {
            if *rank == Rank::Ace {
                (1, 0, 0)
            } else {
                (rank.value(), 0, 0)
            }
        },
        Combination::Flush { rank } => (rank.value(), 0, 0),
        Combination::FullHouse { two, three } => (three.value(), two.value(), 0),
        Combination::FourOfAKind { rank, kicker } => (rank.value(), kicker.value(), 0),
        Combination::StraightFlush { rank } => {
            if *rank == Rank::Ace {
                (1, 0, 0)
            } else {
                (rank.value(), 0, 0)
            }
        },
    }
}

/// The order of two machine integers.
fn ord_of_u8(a: u8, b: u8) -> (r: Ordering)
    ensures
        r == int_ord(a as int, b as int),
{
    if a < b {
        Ordering::Less
    } else if a == b {
        Ordering::Equal
    } else {
        Ordering::Greater
    }
}

/// Compare two combinations under the total hand order.
pub fn compare(a: &Combination, b: &Combination) -> (r: Ordering)
    ensures
        r == combo_cmp(*a, *b),
{
    let ca = cat_value(a);
    let cb = cat_value(b);
    if ca != cb {
        return ord_of_u8(ca, cb);
    }
    let ta = tie_values(a);
    let tb = tie_values(b);
    if ta.0 != tb.0 {
        return ord_of_u8(ta.0, tb.0);
    }
    if ta.1 != tb.1 {
        return ord_of_u8(ta.1, tb.1);
    }
    ord_of_u8(ta.2, tb.2)
}

/// The packed strength key of a combination; keys order combinations
/// exactly as `compare` does.
pub fn combo_key(c: &Combination) -> (k: u16)
    ensures
        k as int == key_of(*c),
{
    let cv = cat_value(c);
    let t = tie_values(c);
    cv as u16 * 3375 + t.0 as u16 * 225 + t.1 as u16 * 15 + t.2 as u16
}

impl PartialOrd for Combination {
    /// The total hand order, exposed through the standard comparison
    /// operators.
    fn partial_cmp(&self, other: &Self) -> (r: Option<Ordering>) {
        Some(compare(self, other))
    }
}

impl vstd::std_specs::cmp::PartialOrdSpecImpl for Combination {
    open spec fn obeys_partial_cmp_spec() -> bool {
        true
    }

    open spec fn partial_cmp_spec(&self, other: &Self) -> Option<Ordering> {
        Some(combo_cmp(*self, *other))
    }
}


} // verus!
