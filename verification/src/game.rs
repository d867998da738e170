use vstd::prelude::*;
use vstd::array::array_as_slice;
use vstd::slice::slice_to_vec;

use core::str::FromStr;

use crate::card::Card;
use crate::card::parse_cards;
use crate::card::parse_cards_spec;
use crate::combination::Combination;
use crate::combination::classify_spec;
use crate::combination::combo_cmp;
use crate::combination::combo_key;
use crate::combination::key_of;
use crate::combination::lemma_cmp_is_key_order;
use core::cmp::Ordering;

use crate::errors::Error;

verus! {

/// The five shared community cards of a hold'em game.
#[derive(Debug, Clone, Copy, PartialEq, Eq)]
pub struct Board(pub [Card; 5]);

/// A Texas hold'em player's two private cards.
#[derive(Debug, Clone, Copy, PartialEq, Eq)]
pub struct HandOf2(pub [Card; 2]);

/// An Omaha hold'em player's four private cards.
#[derive(Debug, Clone, Copy, PartialEq, Eq)]
pub struct HandOf4(pub [Card; 4]);

/// A five-card draw player's five cards.
#[derive(Debug, Clone, Copy, PartialEq, Eq)]
pub struct HandOf5(pub [Card; 5]);

/// One concrete five-card hand submitted to the classifier, whichever game
/// it was drawn from.
#[derive(Debug, Clone, Copy, PartialEq, Eq)]
pub struct Variant(pub [Card; 5]);

/// A parsed game: the variant, its players' private cards, and (for the
/// hold'em variants) the shared board.
#[derive(Debug, Clone, PartialEq, Eq)]
pub enum Game {
    TexasHoldem(Board, Vec<HandOf2>),
    OmahaHoldem(Board, Vec<HandOf4>),
    FiveCardDraw(Vec<HandOf5>),
}

// ------------------------------------------------------------------
// The best-hand search.
//
// A five-card choice out of seven cards is the whole deck minus two
// positions; a three-card choice out of a five-card board is the board
// minus two positions.  The contracts quantify over those positions,
// so they cover every legal subset exactly.
// ------------------------------------------------------------------

/// The sequence with the cards at positions `i` and `j` removed.
pub open spec fn drop2(s: Seq<Card>, i: int, j: int) -> Seq<Card>
    recommends
        0 <= i < j < s.len(),
{
    s.subrange(0, i) + s.subrange(i + 1, j) + s.subrange(j + 1, s.len() as int)
}

/// The two cards at positions `i` and `j`.
pub open spec fn pick2(s: Seq<Card>, i: int, j: int) -> Seq<Card>
    recommends
        0 <= i < j < s.len(),
{
    seq![s[i], s[j]]
}

/// `c` is the strongest classification over every five-card subset of
/// `all`: some subset classifies to `c`, and no subset classifies to
/// anything stronger.  Since equal keys mean equal combinations, this
/// characterizes `c` uniquely.
pub open spec fn is_best_choice_of_five(all: Seq<Card>, c: Combination) -> bool {
    &&& exists|i: int, j: int|
        0 <= i < j < all.len() && c == classify_spec(#[trigger] drop2(all, i, j))
    &&& forall|i: int, j: int|
        0 <= i < j < all.len() ==> key_of(classify_spec(#[trigger] drop2(all, i, j))) <= key_of(c)
}

/// The five-card hand built from hole cards `i`, `j` and the board minus
/// positions `p`, `q`: exactly two private cards and three board cards,
/// as the Omaha rules demand.
pub open spec fn omaha_five(board: Seq<Card>, hole: Seq<Card>, i: int, j: int, p: int, q: int) -> Seq<
    Card,
> {
    pick2(hole, i, j) + drop2(board, p, q)
}

/// `c` is the strongest classification over every hand of two hole cards
/// plus three board cards.
pub open spec fn is_best_omaha(board: Seq<Card>, hole: Seq<Card>, c: Combination) -> bool {
    &&& exists|i: int, j: int, p: int, q: int|
        0 <= i < j < hole.len() && 0 <= p < q < board.len() && c == classify_spec(
            #[trigger] omaha_five(board, hole, i, j, p, q),
        )
    &&& forall|i: int, j: int, p: int, q: int|
        0 <= i < j < hole.len() && 0 <= p < q < board.len() ==> key_of(
            classify_spec(#[trigger] omaha_five(board, hole, i, j, p, q)),
        ) <= key_of(c)
}

/// Copy `all` without the cards at positions `i` and `j`.
#[verifier::loop_isolation(false)]
fn drop_two(all: &Vec<Card>, i: usize, j: usize) -> (r: Vec<Card>)
    requires
        i < j < all@.len(),
    ensures
        r@ == drop2(all@, i as int, j as int),
        r@.len() == all@.len() - 2,
{
    let mut r: Vec<Card> = Vec::new();
    let mut k: usize = 0;
    while k < all.len()
        invariant
            k <= all@.len(),
            k <= i ==> r@ == all@.subrange(0, k as int),
            i < k && k <= j ==> r@ == all@.subrange(0, i as int) + all@.subrange(
                i + 1,
                k as int,
            ),
            j < k ==> r@ == all@.subrange(0, i as int) + all@.subrange(i + 1, j as int)
                + all@.subrange(j + 1, k as int),
        decreases all@.len() - k,
    {
        if k != i && k != j {
            r.push(all[k]);
        }
        proof {
            if k < i {
                assert(all@.subrange(0, k + 1) =~= all@.subrange(0, k as int) + seq![all@[k as int]]);
            } else if k == i {
                assert(all@.subrange(i + 1, i + 1) =~= Seq::<Card>::empty());
                assert(r@ =~= all@.subrange(0, i as int) + all@.subrange(i + 1, i + 1));
            } else if k < j {
                assert(all@.subrange(i + 1, k + 1) =~= all@.subrange(i + 1, k as int) + seq![all@[k as int]]);
                assert(r@ =~= all@.subrange(0, i as int) + all@.subrange(i + 1, k + 1));
            } else if k == j {
                assert(all@.subrange(j + 1, j + 1) =~= Seq::<Card>::empty());
                assert(r@ =~= all@.subrange(0, i as int) + all@.subrange(i + 1, j as int)
                    + all@.subrange(j + 1, j + 1));
            } else {
                assert(all@.subrange(j + 1, k + 1) =~= all@.subrange(j + 1, k as int) + seq![all@[k as int]]);
                assert(r@ =~= all@.subrange(0, i as int) + all@.subrange(i + 1, j as int)
                    + all@.subrange(j + 1, k + 1));
            }
        }
        k = k + 1;
    }
    r
}

/// Classify the five cards of a vector.
fn classify_five(five: &Vec<Card>) -> (r: Combination)
    requires
        five@.len() == 5,
    ensures
        r == classify_spec(five@),
{
    let arr: [Card; 5] = [five[0], five[1], five[2], five[3], five[4]];
    proof {
        assert(arr@ =~= five@);
    }
    Combination::from_variant(Variant(arr))
}

impl Game {
    /// The strongest five-card hand out of the board and a Texas hold'em
    /// player's two hole cards: all 21 five-card subsets of the seven
    /// cards are classified and the maximum kept.
    #[verifier::loop_isolation(false)]
    fn texas_holdem_combination(board: Board, hand: HandOf2) -> (r: Combination)
        ensures
            is_best_choice_of_five(board.0@ + hand.0@, r),
    {
        let mut all: Vec<Card> = slice_to_vec(array_as_slice(&board.0));
        let mut tail: Vec<Card> = slice_to_vec(array_as_slice(&hand.0));
        all.append(&mut tail);
        proof {
            assert(all@ =~= board.0@ + hand.0@);
        }
        let first = drop_two(&all, 0, 1);
        let mut best = classify_five(&first);
        let mut i: usize = 0;
        while i < 7
            invariant
                i <= 7,
                all@.len() == 7,
                exists|a: int, b: int|
                    0 <= a < b < 7 && best == classify_spec(#[trigger] drop2(all@, a, b)),
                forall|a: int, b: int|
                    0 <= a < b < 7 && a < i ==> key_of(
                        classify_spec(#[trigger] drop2(all@, a, b)),
                    ) <= key_of(best),
            decreases 7 - i,
        {
            let mut j: usize = i + 1;
            while j < 7
                invariant
                    i < 7,
                    i + 1 <= j <= 7,
                    all@.len() == 7,
                    exists|a: int, b: int|
                        0 <= a < b < 7 && best == classify_spec(#[trigger] drop2(all@, a, b)),
                    forall|a: int, b: int|
                        0 <= a < b < 7 && a < i ==> key_of(
                            classify_spec(#[trigger] drop2(all@, a, b)),
                        ) <= key_of(best),
                    forall|b: int|
                        i < b < j ==> key_of(
                            classify_spec(#[trigger] drop2(all@, i as int, b)),
                        ) <= key_of(best),
                decreases 7 - j,
            {
                let five = drop_two(&all, i, j);
                let c = classify_five(&five);
                if combo_key(&c) > combo_key(&best) {
                    best = c;
                }
                j = j + 1;
            }
            i = i + 1;
        }
        best
    }

    /// The strongest Omaha hand out of a board and four hole cards: all
    /// 60 pairings of two hole cards with three board cards are
    /// classified and the maximum kept.
    #[verifier::loop_isolation(false)]
    #[verifier::rlimit(60)]
    fn omaha_holdem_combination(board: Board, hand: HandOf4) -> (r: Combination)
        ensures
            is_best_omaha(board.0@, hand.0@, r),
    {
        let bvec: Vec<Card> = slice_to_vec(array_as_slice(&board.0));
        let first = Self::omaha_candidate(&bvec, &hand, 0, 1, 0, 1);
        let mut best = classify_five(&first);
        let ghost bs = board.0@;
        let ghost hs = hand.0@;
        let mut i: usize = 0;
        while i < 4
            invariant
                i <= 4,
                bvec@ == bs,
                bs.len() == 5,
                hs.len() == 4,
                hs == hand.0@,
                exists|a: int, b: int, c: int, d: int|
                    0 <= a < b < 4 && 0 <= c < d < 5 && best == classify_spec(
                        #[trigger] omaha_five(bs, hs, a, b, c, d),
                    ),
                forall|a: int, b: int, c: int, d: int|
                    0 <= a < b < 4 && 0 <= c < d < 5 && a < i ==> key_of(
                        classify_spec(#[trigger] omaha_five(bs, hs, a, b, c, d)),
                    ) <= key_of(best),
            decreases 4 - i,
        {
            let mut j: usize = i + 1;
            while j < 4
                invariant
                    i < 4,
                    i + 1 <= j <= 4,
                    bvec@ == bs,
                    bs.len() == 5,
                    hs.len() == 4,
                    hs == hand.0@,
                    exists|a: int, b: int, c: int, d: int|
                        0 <= a < b < 4 && 0 <= c < d < 5 && best == classify_spec(
                            #[trigger] omaha_five(bs, hs, a, b, c, d),
                        ),
                    forall|a: int, b: int, c: int, d: int|
                        0 <= a < b < 4 && 0 <= c < d < 5 && a < i ==> key_of(
                            classify_spec(#[trigger] omaha_five(bs, hs, a, b, c, d)),
                        ) <= key_of(best),
                    forall|b: int, c: int, d: int|
                        i < b < j && 0 <= c < d < 5 ==> key_of(
                            classify_spec(#[trigger] omaha_five(bs, hs, i as int, b, c, d)),
                        ) <= key_of(best),
                decreases 4 - j,
            {
                let mut p: usize = 0;
                while p < 5
                    invariant
                        i < j < 4,
                        p <= 5,
                        bvec@ == bs,
                        bs.len() == 5,
                        hs.len() == 4,
                        hs == hand.0@,
                        exists|a: int, b: int, c: int, d: int|
                            0 <= a < b < 4 && 0 <= c < d < 5 && best == classify_spec(
                                #[trigger] omaha_five(bs, hs, a, b, c, d),
                            ),
                        forall|a: int, b: int, c: int, d: int|
                            0 <= a < b < 4 && 0 <= c < d < 5 && a < i ==> key_of(
                                classify_spec(#[trigger] omaha_five(bs, hs, a, b, c, d)),
                            ) <= key_of(best),
                        forall|b: int, c: int, d: int|
                            i < b < j && 0 <= c < d < 5 ==> key_of(
                                classify_spec(#[trigger] omaha_five(bs, hs, i as int, b, c, d)),
                            ) <= key_of(best),
                        forall|c: int, d: int|
                            0 <= c < d < 5 && c < p ==> key_of(
                                classify_spec(
                                    #[trigger] omaha_five(bs, hs, i as int, j as int, c, d),
                                ),
                            ) <= key_of(best),
                    decreases 5 - p,
                {
                    let mut q: usize = p + 1;
                    while q < 5
                        invariant
                            i < j < 4,
                            p < 5,
                            p + 1 <= q <= 5,
                            bvec@ == bs,
                            bs.len() == 5,
                            hs.len() == 4,
                            hs == hand.0@,
                            exists|a: int, b: int, c: int, d: int|
                                0 <= a < b < 4 && 0 <= c < d < 5 && best == classify_spec(
                                    #[trigger] omaha_five(bs, hs, a, b, c, d),
                                ),
                            forall|a: int, b: int, c: int, d: int|
                                0 <= a < b < 4 && 0 <= c < d < 5 && a < i ==> key_of(
                                    classify_spec(#[trigger] omaha_five(bs, hs, a, b, c, d)),
                                ) <= key_of(best),
                            forall|b: int, c: int, d: int|
                                i < b < j && 0 <= c < d < 5 ==> key_of(
                                    classify_spec(#[trigger] omaha_five(bs, hs, i as int, b, c, d)),
                                ) <= key_of(best),
                            forall|c: int, d: int|
                                0 <= c < d < 5 && c < p ==> key_of(
                                    classify_spec(
                                        #[trigger] omaha_five(bs, hs, i as int, j as int, c, d),
                                    ),
                                ) <= key_of(best),
                            forall|d: int|
                                p < d < q ==> key_of(
                                    classify_spec(
                                        #[trigger] omaha_five(
                                            bs,
                                            hs,
                                            i as int,
                                            j as int,
                                            p as int,
                                            d,
                                        ),
                                    ),
                                ) <= key_of(best),
                        decreases 5 - q,
                    {
                        let five = Self::omaha_candidate(&bvec, &hand, i, j, p, q);
                        let c = classify_five(&five);
                        if combo_key(&c) > combo_key(&best) {
                            best = c;
                        }
                        q = q + 1;
                    }
                    p = p + 1;
                }
                j = j + 1;
            }
            i = i + 1;
        }
        best
    }

    /// Build one Omaha candidate hand: hole cards `i`, `j` followed by
    /// the board without positions `p` and `q`.
    fn omaha_candidate(bvec: &Vec<Card>, hand: &HandOf4, i: usize, j: usize, p: usize, q: usize) -> (r:
        Vec<Card>)
        requires
            bvec@.len() == 5,
            i < j < 4,
            p < q < 5,
        ensures
            r@ == omaha_five(bvec@, hand.0@, i as int, j as int, p as int, q as int),
            r@.len() == 5,
    {
        let b3 = drop_two(bvec, p, q);
        let mut r: Vec<Card> = Vec::new();
        r.push(hand.0[i]);
        r.push(hand.0[j]);
        r.push(b3[0]);
        r.push(b3[1]);
        r.push(b3[2]);
        proof {
            assert(r@ =~= omaha_five(bvec@, hand.0@, i as int, j as int, p as int, q as int));
        }
        r
    }
}

// ------------------------------------------------------------------
// Ranking the players of a game.
// ------------------------------------------------------------------

/// The combinations of the result come weakest first.
pub open spec fn combos_ascending(r: Seq<(Vec<Card>, Combination)>) -> bool {
    forall|k: int, l: int|
        0 <= k < l < r.len() ==> combo_cmp((#[trigger] r[k]).1, (#[trigger] r[l]).1)
            != Ordering::Greater
}

/// `p` maps result positions to distinct player indices below `n`.
pub open spec fn perm_of(p: Seq<int>, n: int) -> bool {
    &&& p.len() == n
    &&& forall|k: int| 0 <= k < n ==> 0 <= #[trigger] p[k] < n
    &&& forall|k: int, l: int| 0 <= k < l < n ==> #[trigger] p[k] != #[trigger] p[l]
}

/// Players whose combinations tie keep their original relative order:
/// the sort is stable.
pub open spec fn stable_on_ties(p: Seq<int>, r: Seq<(Vec<Card>, Combination)>) -> bool {
    forall|k: int, l: int|
        0 <= k < l < r.len() && key_of((#[trigger] r[k]).1) == key_of((#[trigger] r[l]).1)
            ==> p[k] < p[l]
}

/// The result lists each Texas hold'em player once, stably sorted
/// ascending, paired with that player's best combination.
pub open spec fn texas_ranking(board: Board, hands: Seq<HandOf2>, r: Seq<(Vec<Card>, Combination)>) -> bool {
    &&& r.len() == hands.len()
    &&& combos_ascending(r)
    &&& exists|p: Seq<int>|
        {
            &&& #[trigger] perm_of(p, hands.len() as int)
            &&& stable_on_ties(p, r)
            &&& forall|k: int|
                0 <= k < r.len() ==> (#[trigger] r[k]).0@ == hands[p[k]].0@
                    && is_best_choice_of_five(board.0@ + hands[p[k]].0@, r[k].1)
        }
}

/// The result lists each Omaha hold'em player once, stably sorted
/// ascending, paired with that player's best combination.
pub open spec fn omaha_ranking(board: Board, hands: Seq<HandOf4>, r: Seq<(Vec<Card>, Combination)>) -> bool {
    &&& r.len() == hands.len()
    &&& combos_ascending(r)
    &&& exists|p: Seq<int>|
        {
            &&& #[trigger] perm_of(p, hands.len() as int)
            &&& stable_on_ties(p, r)
            &&& forall|k: int|
                0 <= k < r.len() ==> (#[trigger] r[k]).0@ == hands[p[k]].0@ && is_best_omaha(
                    board.0@,
                    hands[p[k]].0@,
                    r[k].1,
                )
        }
}

/// The result lists each five-card draw player once, stably sorted
/// ascending, paired with the classification of that player's own hand.
pub open spec fn draw_ranking(hands: Seq<HandOf5>, r: Seq<(Vec<Card>, Combination)>) -> bool {
    &&& r.len() == hands.len()
    &&& combos_ascending(r)
    &&& exists|p: Seq<int>|
        {
            &&& #[trigger] perm_of(p, hands.len() as int)
            &&& stable_on_ties(p, r)
            &&& forall|k: int|
                0 <= k < r.len() ==> (#[trigger] r[k]).0@ == hands[p[k]].0@ && r[k].1
                    == classify_spec(hands[p[k]].0@)
        }
}

/// The keys of the result are ascending.
pub open spec fn keys_ascending(r: Seq<(Vec<Card>, Combination)>) -> bool {
    forall|k: int, l: int|
        0 <= k < l < r.len() ==> key_of((#[trigger] r[k]).1) <= key_of((#[trigger] r[l]).1)
}

/// Insert an item into a key-sorted vector, after every entry whose key
/// is at most the item's own: the stable insertion position.
#[verifier::loop_isolation(false)]
fn insert_ranked(out: &mut Vec<(Vec<Card>, Combination)>, item: (Vec<Card>, Combination)) -> (pos:
    usize)
    requires
        keys_ascending(old(out)@),
    ensures
        pos <= old(out)@.len(),
        final(out)@ == old(out)@.insert(pos as int, item),
        forall|idx: int| 0 <= idx < pos ==> key_of((#[trigger] old(out)@[idx]).1) <= key_of(item.1),
        forall|idx: int|
            pos <= idx < old(out)@.len() ==> key_of((#[trigger] old(out)@[idx]).1) > key_of(item.1),
        keys_ascending(final(out)@),
{
    let key = combo_key(&item.1);
    let mut pos: usize = 0;
    let mut m: usize = 0;
    while m < out.len()
        invariant
            pos <= m <= out@.len(),
            forall|idx: int| 0 <= idx < pos ==> key_of((#[trigger] out@[idx]).1) <= key as int,
            forall|idx: int| pos <= idx < m ==> key_of((#[trigger] out@[idx]).1) > key as int,
        decreases out@.len() - m,
    {
        if combo_key(&out[m].1) <= key {
            proof {
                if pos < m {
                    assert(key_of(out@[pos as int].1) > key as int);
                    assert(key_of(out@[pos as int].1) <= key_of(out@[m as int].1));
                    assert(false);
                }
            }
            pos = m + 1;
        }
        m = m + 1;
    }
    proof {
        out@.insert_ensures(pos as int, item);
    }
    out.insert(pos, item);
    proof {
        assert forall|k: int, l: int| 0 <= k < l < out@.len() implies key_of(
            (#[trigger] out@[k]).1,
        ) <= key_of((#[trigger] out@[l]).1) by {
            let prev = old(out)@;
            if l < pos {
                assert(out@[k] == prev[k] && out@[l] == prev[l]);
            } else if k < pos && l == pos {
                assert(out@[k] == prev[k]);
            } else if k < pos && l > pos {
                assert(out@[k] == prev[k] && out@[l] == prev[l - 1]);
            } else if k == pos {
                assert(out@[l] == prev[l - 1]);
            } else {
                assert(out@[k] == prev[k - 1] && out@[l] == prev[l - 1]);
            }
        }
    }
    pos
}

impl Game {
    /// Rank the players of this game: pair each player's cards with that
    /// player's best combination and sort the pairs ascending by hand
    /// strength, stably, so that tied players keep their input order.
    pub fn sort_hands(&self) -> (r: Vec<(Vec<Card>, Combination)>)
        ensures
            (*self matches Game::TexasHoldem(board, hands) ==> texas_ranking(board, hands@, r@)),
            (*self matches Game::OmahaHoldem(board, hands) ==> omaha_ranking(board, hands@, r@)),
            (*self matches Game::FiveCardDraw(hands) ==> draw_ranking(hands@, r@)),
    {
        match self {
            Game::TexasHoldem(board, hands) => {
                let mut out: Vec<(Vec<Card>, Combination)> = Vec::new();
                let ghost mut perm: Seq<int> = Seq::empty();
                let mut k: usize = 0;
                while k < hands.len()
                    invariant
                        k <= hands@.len(),
                        out@.len() == k,
                        perm.len() == k as int,
                        keys_ascending(out@),
                        forall|idx: int| 0 <= idx < k ==> 0 <= #[trigger] perm[idx] < k,
                        forall|idx: int, l: int|
                            0 <= idx < l < k ==> #[trigger] perm[idx] != #[trigger] perm[l],
                        stable_on_ties(perm, out@),
                        forall|idx: int|
                            0 <= idx < k ==> (#[trigger] out@[idx]).0@ == hands@[perm[idx]].0@
                                && is_best_choice_of_five(
                                board.0@ + hands@[perm[idx]].0@,
                                out@[idx].1,
                            ),
                    decreases hands@.len() - k,
                {
                    let hand = hands[k];
                    let best = Self::texas_holdem_combination(*board, hand);
                    let cards: Vec<Card> = slice_to_vec(array_as_slice(&hand.0));
                    let ghost prev = out@;
                    let ghost prev_perm = perm;
                    let pos = insert_ranked(&mut out, (cards, best));
                    proof {
                        perm = perm.insert(pos as int, k as int);
                        prev.insert_ensures(pos as int, (cards, best));
                        prev_perm.insert_ensures(pos as int, k as int);
                    }
                    k = k + 1;
                }
                proof {
                    assert(perm_of(perm, hands@.len() as int));
                    assert forall|a: int, b: int| 0 <= a < b < out@.len() implies combo_cmp(
                        (#[trigger] out@[a]).1,
                        (#[trigger] out@[b]).1,
                    ) != Ordering::Greater by {
                        lemma_cmp_is_key_order(out@[a].1, out@[b].1);
                    }
                }
                out
            },
            Game::OmahaHoldem(board, hands) => {
                let mut out: Vec<(Vec<Card>, Combination)> = Vec::new();
                let ghost mut perm: Seq<int> = Seq::empty();
                let mut k: usize = 0;
                while k < hands.len()
                    invariant
                        k <= hands@.len(),
                        out@.len() == k,
                        perm.len() == k as int,
                        keys_ascending(out@),
                        forall|idx: int| 0 <= idx < k ==> 0 <= #[trigger] perm[idx] < k,
                        forall|idx: int, l: int|
                            0 <= idx < l < k ==> #[trigger] perm[idx] != #[trigger] perm[l],
                        stable_on_ties(perm, out@),
                        forall|idx: int|
                            0 <= idx < k ==> (#[trigger] out@[idx]).0@ == hands@[perm[idx]].0@
                                && is_best_omaha(board.0@, hands@[perm[idx]].0@, out@[idx].1),
                    decreases hands@.len() - k,
                {
                    let hand = hands[k];
                    let best = Self::omaha_holdem_combination(*board, hand);
                    let cards: Vec<Card> = slice_to_vec(array_as_slice(&hand.0));
                    let ghost prev = out@;
                    let ghost prev_perm = perm;
                    let pos = insert_ranked(&mut out, (cards, best));
                    proof {
                        perm = perm.insert(pos as int, k as int);
                        prev.insert_ensures(pos as int, (cards, best));
                        prev_perm.insert_ensures(pos as int, k as int);
                    }
                    k = k + 1;
                }
                proof {
                    assert(perm_of(perm, hands@.len() as int));
                    assert forall|a: int, b: int| 0 <= a < b < out@.len() implies combo_cmp(
                        (#[trigger] out@[a]).1,
                        (#[trigger] out@[b]).1,
                    ) != Ordering::Greater by {
                        lemma_cmp_is_key_order(out@[a].1, out@[b].1);
                    }
                }
                out
            },
            Game::FiveCardDraw(hands) => {
                let mut out: Vec<(Vec<Card>, Combination)> = Vec::new();
                let ghost mut perm: Seq<int> = Seq::empty();
                let mut k: usize = 0;
                while k < hands.len()
                    invariant
                        k <= hands@.len(),
                        out@.len() == k,
                        perm.len() == k as int,
                        keys_ascending(out@),
                        forall|idx: int| 0 <= idx < k ==> 0 <= #[trigger] perm[idx] < k,
                        forall|idx: int, l: int|
                            0 <= idx < l < k ==> #[trigger] perm[idx] != #[trigger] perm[l],
                        stable_on_ties(perm, out@),
                        forall|idx: int|
                            0 <= idx < k ==> (#[trigger] out@[idx]).0@ == hands@[perm[idx]].0@
                                && out@[idx].1 == classify_spec(hands@[perm[idx]].0@),
                    decreases hands@.len() - k,
                {
                    let hand = hands[k];
                    let cards: Vec<Card> = slice_to_vec(array_as_slice(&hand.0));
                    let best = classify_five(&cards);
                    let ghost prev = out@;
                    let ghost prev_perm = perm;
                    let pos = insert_ranked(&mut out, (cards, best));
                    proof {
                        perm = perm.insert(pos as int, k as int);
                        prev.insert_ensures(pos as int, (cards, best));
                        prev_perm.insert_ensures(pos as int, k as int);
                    }
                    k = k + 1;
                }
                proof {
                    assert(perm_of(perm, hands@.len() as int));
                    assert forall|a: int, b: int| 0 <= a < b < out@.len() implies combo_cmp(
                        (#[trigger] out@[a]).1,
                        (#[trigger] out@[b]).1,
                    ) != Ordering::Greater by {
                        lemma_cmp_is_key_order(out@[a].1, out@[b].1);
                    }
                }
                out
            },
        }
    }
}

// ------------------------------------------------------------------
// Parsing game descriptor lines.
//
// A descriptor is the variant tag, then (for the hold'em variants) the
// board, then one token of hole cards per player, separated by single
// spaces.
// ------------------------------------------------------------------

/// No character of `a` is a space.
pub open spec fn no_space(a: Seq<char>) -> bool {
    forall|i: int| 0 <= i < a.len() ==> a[i] != ' '
}

/// The space-separated tokens of `s`, empty tokens included, exactly as
/// splitting on every single space character yields them.
pub open spec fn split_sp(s: Seq<char>) -> Seq<Seq<char>>
    decreases s.len(),
{
    if s.len() == 0 {
        seq![Seq::<char>::empty()]
    } else if s[0] == ' ' {
        seq![Seq::<char>::empty()] + split_sp(s.skip(1))
    } else {
        let r = split_sp(s.skip(1));
        r.update(0, seq![s[0]] + r[0])
    }
}

proof fn lemma_split_sp_len(s: Seq<char>)
    ensures
        split_sp(s).len() >= 1,
    decreases s.len(),
{
    if s.len() == 0 {
    } else if s[0] == ' ' {
    } else {
        lemma_split_sp_len(s.skip(1));
    }
}

/// A spaceless string is one single token.
proof fn lemma_split_sp_no_space(a: Seq<char>)
    requires
        no_space(a),
    ensures
        split_sp(a) == seq![a],
    decreases a.len(),
{
    if a.len() == 0 {
        assert(a =~= Seq::<char>::empty());
        assert(split_sp(a) =~= seq![a]);
    } else {
        assert(no_space(a.skip(1))) by {
            assert(forall|i: int| 0 <= i < a.skip(1).len() ==> a.skip(1)[i] == a[i + 1]);
        }
        lemma_split_sp_no_space(a.skip(1));
        lemma_split_sp_len(a.skip(1));
        assert(seq![a[0]] + a.skip(1) =~= a);
        assert(split_sp(a) =~= seq![a]);
    }
}

/// Splitting at the first space: a spaceless prefix becomes the first
/// token and the rest splits on its own.
proof fn lemma_split_sp_space(a: Seq<char>, b: Seq<char>)
    requires
        no_space(a),
    ensures
        split_sp(a + seq![' '] + b) == seq![a] + split_sp(b),
    decreases a.len(),
{
    let s = a + seq![' '] + b;
    lemma_split_sp_len(b);
    if a.len() == 0 {
        assert(s[0] == ' ');
        assert(s.skip(1) =~= b);
        assert(a =~= Seq::<char>::empty());
        assert(split_sp(s) =~= seq![a] + split_sp(b));
    } else {
        assert(s[0] == a[0]);
        assert(s[0] != ' ');
        assert(s.skip(1) =~= a.skip(1) + seq![' '] + b);
        assert(no_space(a.skip(1))) by {
            assert(forall|i: int| 0 <= i < a.skip(1).len() ==> a.skip(1)[i] == a[i + 1]);
        }
        lemma_split_sp_space(a.skip(1), b);
        let r = split_sp(s.skip(1));
        assert(r[0] == a.skip(1));
        assert(seq![a[0]] + a.skip(1) =~= a);
        assert(split_sp(s) =~= seq![a] + split_sp(b));
    }
}

/// The views of a sequence of string slices.
pub open spec fn views_of(ts: Seq<&str>) -> Seq<Seq<char>> {
    Seq::new(ts.len(), |k: int| ts[k]@)
}

/// Split a descriptor line on single spaces.
#[verifier::loop_isolation(false)]
fn split_spaces<'a>(s: &'a str) -> (toks: Vec<&'a str>)
    ensures
        toks@.len() == split_sp(s@).len(),
        forall|t: int| 0 <= t < toks@.len() ==> (#[trigger] toks@[t])@ == split_sp(s@)[t],
{
    let n = s.unicode_len();
    let mut toks: Vec<&str> = Vec::new();
    let mut st: usize = 0;
    let mut i: usize = 0;
    proof {
        assert(s@.skip(0) =~= s@);
        assert(views_of(toks@) + split_sp(s@) =~= split_sp(s@));
    }
    while i < n
        invariant
            st <= i <= n,
            no_space(s@.subrange(st as int, i as int)),
            split_sp(s@) == views_of(toks@) + split_sp(s@.skip(st as int)),
        decreases n - i,
    {
        let c = s.get_char(i);
        if c == ' ' {
            let tok = s.substring_char(st, i);
            let ghost prev = toks@;
            toks.push(tok);
            proof {
                assert(s@.skip(st as int) =~= s@.subrange(st as int, i as int) + seq![' ']
                    + s@.skip(i + 1));
                lemma_split_sp_space(s@.subrange(st as int, i as int), s@.skip(i + 1));
                assert(views_of(toks@) =~= views_of(prev) + seq![tok@]);
                assert((views_of(prev) + seq![tok@]) + split_sp(s@.skip(i + 1)) =~= views_of(prev)
                    + (seq![tok@] + split_sp(s@.skip(i + 1))));
            }
            st = i + 1;
            proof {
                assert(no_space(s@.subrange(st as int, st as int)));
            }
        } else {
            proof {
                assert(s@.subrange(st as int, i + 1) =~= s@.subrange(st as int, i as int)
                    + seq![s@[i as int]]);
            }
        }
        i = i + 1;
    }
    let tok = s.substring_char(st, n);
    let ghost prev = toks@;
    toks.push(tok);
    proof {
        assert(s@.skip(st as int) =~= s@.subrange(st as int, n as int));
        lemma_split_sp_no_space(s@.subrange(st as int, n as int));
        assert(views_of(toks@) =~= views_of(prev) + seq![tok@]);
        assert(views_of(toks@) =~= split_sp(s@));
    }
    toks
}

/// Character-for-character string equality.
#[verifier::loop_isolation(false)]
fn str_eq(a: &str, b: &str) -> (r: bool)
    ensures
        r == (a@ == b@),
{
    let na = a.unicode_len();
    let nb = b.unicode_len();
    if na != nb {
        return false;
    }
    let mut i: usize = 0;
    while i < na
        invariant
            i <= na,
            na == a@.len(),
            na == b@.len(),
            forall|k: int| 0 <= k < i ==> a@[k] == b@[k],
        decreases na - i,
    {
        if a.get_char(i) != b.get_char(i) {
            return false;
        }
        i = i + 1;
    }
    proof {
        assert(a@ =~= b@);
    }
    true
}

/// The cards of a token that must hold exactly `n` of them: a parse
/// error if a card code is malformed, a wrong-arity error if the count
/// is off.
pub open spec fn cards_exact_spec(t: Seq<char>, n: int) -> Result<Seq<Card>, Error> {
    match parse_cards_spec(t) {
        Ok(cs) => if cs.len() == n {
            Ok(cs)
        } else {
            Err(Error::WrongHandArity)
        },
        Err(e) => Err(e),
    }
}

impl Board {
    /// Parse a board token of exactly five cards.
    pub fn parse(s: &str) -> (r: Result<Board, Error>)
        ensures
            (cards_exact_spec(s@, 5) matches Ok(cs) ==> r matches Ok(b) && b.0@ == cs),
            (cards_exact_spec(s@, 5) matches Err(e) ==> r == Err::<Board, Error>(e)),
    {
        match parse_cards(s) {
            Ok(v) => {
                if v.len() == 5 {
                    let arr = [v[0], v[1], v[2], v[3], v[4]];
                    proof {
                        assert(arr@ =~= v@);
                    }
                    Ok(Board(arr))
                } else {
                    Err(Error::WrongHandArity)
                }
            },
            Err(e) => Err(e),
        }
    }
}

impl FromStr for Board {
    type Err = Error;

    fn from_str(s: &str) -> Result<Self, Error> {
        Board::parse(s)
    }
}

impl HandOf2 {
    /// Parse a hole-card token of exactly two cards.
    pub fn parse(s: &str) -> (r: Result<HandOf2, Error>)
        ensures
            (cards_exact_spec(s@, 2) matches Ok(cs) ==> r matches Ok(h) && h.0@ == cs),
            (cards_exact_spec(s@, 2) matches Err(e) ==> r == Err::<HandOf2, Error>(e)),
    {
        match parse_cards(s) {
            Ok(v) => {
                if v.len() == 2 {
                    let arr = [v[0], v[1]];
                    proof {
                        assert(arr@ =~= v@);
                    }
                    Ok(HandOf2(arr))
                } else {
                    Err(Error::WrongHandArity)
                }
            },
            Err(e) => Err(e),
        }
    }
}

impl FromStr for HandOf2 {
    type Err = Error;

    fn from_str(s: &str) -> Result<Self, Error> {
        HandOf2::parse(s)
    }
}

impl HandOf4 {
    /// Parse a hole-card token of exactly four cards.
    pub fn parse(s: &str) -> (r: Result<HandOf4, Error>)
        ensures
            (cards_exact_spec(s@, 4) matches Ok(cs) ==> r matches Ok(h) && h.0@ == cs),
            (cards_exact_spec(s@, 4) matches Err(e) ==> r == Err::<HandOf4, Error>(e)),
    {
        match parse_cards(s) {
            Ok(v) => {
                if v.len() == 4 {
                    let arr = [v[0], v[1], v[2], v[3]];
                    proof {
                        assert(arr@ =~= v@);
                    }
                    Ok(HandOf4(arr))
                } else {
                    Err(Error::WrongHandArity)
                }
            },
            Err(e) => Err(e),
        }
    }
}

impl FromStr for HandOf4 {
    type Err = Error;

    fn from_str(s: &str) -> Result<Self, Error> {
        HandOf4::parse(s)
    }
}

impl HandOf5 {
    /// Parse a token of exactly five cards.
    pub fn parse(s: &str) -> (r: Result<HandOf5, Error>)
        ensures
            (cards_exact_spec(s@, 5) matches Ok(cs) ==> r matches Ok(h) && h.0@ == cs),
            (cards_exact_spec(s@, 5) matches Err(e) ==> r == Err::<HandOf5, Error>(e)),
    {
        match parse_cards(s) {
            Ok(v) => {
                if v.len() == 5 {
                    let arr = [v[0], v[1], v[2], v[3], v[4]];
                    proof {
                        assert(arr@ =~= v@);
                    }
                    Ok(HandOf5(arr))
                } else {
                    Err(Error::WrongHandArity)
                }
            },
            Err(e) => Err(e),
        }
    }
}

impl FromStr for HandOf5 {
    type Err = Error;

    fn from_str(s: &str) -> Result<Self, Error> {
        HandOf5::parse(s)
    }
}

/// The hands parsed from the remaining tokens, each of exactly `n`
/// cards; the first failing token's error wins.
pub open spec fn hands_spec(toks: Seq<Seq<char>>, n: int) -> Result<Seq<Seq<Card>>, Error>
    decreases toks.len(),
{
    if toks.len() == 0 {
        Ok(Seq::empty())
    } else {
        match cards_exact_spec(toks[0], n) {
            Ok(cs) => match hands_spec(toks.skip(1), n) {
                Ok(rest) => Ok(seq![cs] + rest),
                Err(e) => Err(e),
            },
            Err(e) => Err(e),
        }
    }
}

/// The card sequences of a roster of two-card hands.
pub open spec fn hand2_views(hs: Seq<HandOf2>) -> Seq<Seq<Card>> {
    Seq::new(hs.len(), |k: int| hs[k].0@)
}

/// The card sequences of a roster of four-card hands.
pub open spec fn hand4_views(hs: Seq<HandOf4>) -> Seq<Seq<Card>> {
    Seq::new(hs.len(), |k: int| hs[k].0@)
}

/// The card sequences of a roster of five-card hands.
pub open spec fn hand5_views(hs: Seq<HandOf5>) -> Seq<Seq<Card>> {
    Seq::new(hs.len(), |k: int| hs[k].0@)
}

/// The three variant tags are pairwise distinct strings.
proof fn lemma_tags_distinct()
    ensures
        "texas-holdem"@ != "omaha-holdem"@,
        "texas-holdem"@ != "five-card-draw"@,
        "omaha-holdem"@ != "five-card-draw"@,
{
    reveal_strlit("texas-holdem");
    reveal_strlit("omaha-holdem");
    reveal_strlit("five-card-draw");
    assert("texas-holdem"@[0] == 't');
    assert("omaha-holdem"@[0] == 'o');
    assert("five-card-draw"@[0] == 'f');
}

impl Game {
    /// Parse one game descriptor line: the variant tag, then the board
    /// for the hold'em variants, then one hole-card token per player.
    /// Rejects an unknown tag, a malformed card code, and a token of the
    /// wrong size; a missing board also counts as a wrong arity.
    #[verifier::loop_isolation(false)]
    pub fn parse(s: &str) -> (r: Result<Game, Error>)
        ensures
            ({
                let toks = split_sp(s@);
                &&& (toks[0] == "texas-holdem"@ ==> (if toks.len() < 2 {
                    r == Err::<Game, Error>(Error::WrongHandArity)
                } else {
                    match cards_exact_spec(toks[1], 5) {
                        Err(e) => r == Err::<Game, Error>(e),
                        Ok(bcs) => match hands_spec(toks.skip(2), 2) {
                            Err(e) => r == Err::<Game, Error>(e),
                            Ok(hs) => r matches Ok(g) && (g matches Game::TexasHoldem(b, hv)
                                && b.0@ == bcs && hand2_views(hv@) == hs),
                        },
                    }
                }))
                &&& (toks[0] == "omaha-holdem"@ ==> (if toks.len() < 2 {
                    r == Err::<Game, Error>(Error::WrongHandArity)
                } else {
                    match cards_exact_spec(toks[1], 5) {
                        Err(e) => r == Err::<Game, Error>(e),
                        Ok(bcs) => match hands_spec(toks.skip(2), 4) {
                            Err(e) => r == Err::<Game, Error>(e),
                            Ok(hs) => r matches Ok(g) && (g matches Game::OmahaHoldem(b, hv)
                                && b.0@ == bcs && hand4_views(hv@) == hs),
                        },
                    }
                }))
                &&& (toks[0] == "five-card-draw"@ ==> (match hands_spec(toks.skip(1), 5) {
                    Err(e) => r == Err::<Game, Error>(e),
                    Ok(hs) => r matches Ok(g) && (g matches Game::FiveCardDraw(hv) && hand5_views(
                        hv@,
                    ) == hs),
                }))
                &&& (toks[0] != "texas-holdem"@ && toks[0] != "omaha-holdem"@ && toks[0]
                    != "five-card-draw"@ ==> r == Err::<Game, Error>(Error::InvalidGameVariant))
            }),
    {
        proof {
            lemma_tags_distinct();
        }
        let toks = split_spaces(s);
        proof {
            lemma_split_sp_len(s@);
        }
        let tag = toks[0];
        if str_eq(tag, "texas-holdem") {
            if toks.len() < 2 {
                return Err(Error::WrongHandArity);
            }
            let board = match Board::parse(toks[1]) {
                Ok(board) => board,
                Err(e) => {
                    return Err(e);
                },
            };
            let mut hands: Vec<HandOf2> = Vec::new();
            let mut k: usize = 2;
            proof {
                assert(hand2_views(hands@) =~= Seq::<Seq<Card>>::empty());
                if hands_spec(split_sp(s@).skip(2), 2) is Ok {
                    let rest = hands_spec(split_sp(s@).skip(2), 2)->Ok_0;
                    assert(hand2_views(hands@) + rest =~= rest);
                }
            }
            while k < toks.len()
                invariant
                    2 <= k <= toks@.len(),
                    toks@.len() == split_sp(s@).len(),
                    forall|t: int| 0 <= t < toks@.len() ==> (#[trigger] toks@[t])@ == split_sp(
                        s@,
                    )[t],
                    (hands_spec(split_sp(s@).skip(k as int), 2) matches Ok(rest) ==> hands_spec(
                        split_sp(s@).skip(2),
                        2,
                    ) == Ok::<Seq<Seq<Card>>, Error>(hand2_views(hands@) + rest)),
                    (hands_spec(split_sp(s@).skip(k as int), 2) matches Err(e) ==> hands_spec(
                        split_sp(s@).skip(2),
                        2,
                    ) == Err::<Seq<Seq<Card>>, Error>(e)),
                decreases toks@.len() - k,
            {
                proof {
                    assert(split_sp(s@).skip(k as int)[0] == split_sp(s@)[k as int]);
                }
                let hand = match HandOf2::parse(toks[k]) {
                    Ok(hand) => hand,
                    Err(e) => {
                        return Err(e);
                    },
                };
                let ghost prev = hands@;
                hands.push(hand);
                proof {
                    assert(split_sp(s@).skip(k as int).skip(1) =~= split_sp(s@).skip(k + 1));
                    if hands_spec(split_sp(s@).skip(k + 1), 2) is Ok {
                        let rest = hands_spec(split_sp(s@).skip(k + 1), 2)->Ok_0;
                        assert(hand2_views(hands@) =~= hand2_views(prev) + seq![hand.0@]);
                        assert((hand2_views(prev) + seq![hand.0@]) + rest =~= hand2_views(prev) + (
                        seq![hand.0@] + rest));
                    }
                }
                k = k + 1;
            }
            proof {
                assert(split_sp(s@).skip(k as int).len() == 0);
                if hands_spec(split_sp(s@).skip(2), 2) is Ok {
                    assert(hand2_views(hands@) + Seq::<Seq<Card>>::empty() =~= hand2_views(
                        hands@,
                    ));
                }
            }
            Ok(Game::TexasHoldem(board, hands))
        } else if str_eq(tag, "omaha-holdem") {
            if toks.len() < 2 {
                return Err(Error::WrongHandArity);
            }
            let board = match Board::parse(toks[1]) {
                Ok(board) => board,
                Err(e) => {
                    return Err(e);
                },
            };
            let mut hands: Vec<HandOf4> = Vec::new();
            let mut k: usize = 2;
            proof {
                assert(hand4_views(hands@) =~= Seq::<Seq<Card>>::empty());
                if hands_spec(split_sp(s@).skip(2), 4) is Ok {
                    let rest = hands_spec(split_sp(s@).skip(2), 4)->Ok_0;
                    assert(hand4_views(hands@) + rest =~= rest);
                }
            }
            while k < toks.len()
                invariant
                    2 <= k <= toks@.len(),
                    toks@.len() == split_sp(s@).len(),
                    forall|t: int| 0 <= t < toks@.len() ==> (#[trigger] toks@[t])@ == split_sp(
                        s@,
                    )[t],
                    (hands_spec(split_sp(s@).skip(k as int), 4) matches Ok(rest) ==> hands_spec(
                        split_sp(s@).skip(2),
                        4,
                    ) == Ok::<Seq<Seq<Card>>, Error>(hand4_views(hands@) + rest)),
                    (hands_spec(split_sp(s@).skip(k as int), 4) matches Err(e) ==> hands_spec(
                        split_sp(s@).skip(2),
                        4,
                    ) == Err::<Seq<Seq<Card>>, Error>(e)),
                decreases toks@.len() - k,
            {
                proof {
                    assert(split_sp(s@).skip(k as int)[0] == split_sp(s@)[k as int]);
                }
                let hand = match HandOf4::parse(toks[k]) {
                    Ok(hand) => hand,
                    Err(e) => {
                        return Err(e);
                    },
                };
                let ghost prev = hands@;
                hands.push(hand);
                proof {
                    assert(split_sp(s@).skip(k as int).skip(1) =~= split_sp(s@).skip(k + 1));
                    if hands_spec(split_sp(s@).skip(k + 1), 4) is Ok {
                        let rest = hands_spec(split_sp(s@).skip(k + 1), 4)->Ok_0;
                        assert(hand4_views(hands@) =~= hand4_views(prev) + seq![hand.0@]);
                        assert((hand4_views(prev) + seq![hand.0@]) + rest =~= hand4_views(prev) + (
                        seq![hand.0@] + rest));
                    }
                }
                k = k + 1;
            }
            proof {
                assert(split_sp(s@).skip(k as int).len() == 0);
                if hands_spec(split_sp(s@).skip(2), 4) is Ok {
                    assert(hand4_views(hands@) + Seq::<Seq<Card>>::empty() =~= hand4_views(
                        hands@,
                    ));
                }
            }
            Ok(Game::OmahaHoldem(board, hands))
        } else if str_eq(tag, "five-card-draw") {
            let mut hands: Vec<HandOf5> = Vec::new();
            let mut k: usize = 1;
            proof {
                assert(hand5_views(hands@) =~= Seq::<Seq<Card>>::empty());
                if hands_spec(split_sp(s@).skip(1), 5) is Ok {
                    let rest = hands_spec(split_sp(s@).skip(1), 5)->Ok_0;
                    assert(hand5_views(hands@) + rest =~= rest);
                }
            }
            while k < toks.len()
                invariant
                    1 <= k <= toks@.len(),
                    toks@.len() == split_sp(s@).len(),
                    forall|t: int| 0 <= t < toks@.len() ==> (#[trigger] toks@[t])@ == split_sp(
                        s@,
                    )[t],
                    (hands_spec(split_sp(s@).skip(k as int), 5) matches Ok(rest) ==> hands_spec(
                        split_sp(s@).skip(1),
                        5,
                    ) == Ok::<Seq<Seq<Card>>, Error>(hand5_views(hands@) + rest)),
                    (hands_spec(split_sp(s@).skip(k as int), 5) matches Err(e) ==> hands_spec(
                        split_sp(s@).skip(1),
                        5,
                    ) == Err::<Seq<Seq<Card>>, Error>(e)),
                decreases toks@.len() - k,
            {
                proof {
                    assert(split_sp(s@).skip(k as int)[0] == split_sp(s@)[k as int]);
                }
                let hand = match HandOf5::parse(toks[k]) {
                    Ok(hand) => hand,
                    Err(e) => {
                        return Err(e);
                    },
                };
                let ghost prev = hands@;
                hands.push(hand);
                proof {
                    assert(split_sp(s@).skip(k as int).skip(1) =~= split_sp(s@).skip(k + 1));
                    if hands_spec(split_sp(s@).skip(k + 1), 5) is Ok {
                        let rest = hands_spec(split_sp(s@).skip(k + 1), 5)->Ok_0;
                        assert(hand5_views(hands@) =~= hand5_views(prev) + seq![hand.0@]);
                        assert((hand5_views(prev) + seq![hand.0@]) + rest =~= hand5_views(prev) + (
                        seq![hand.0@] + rest));
                    }
                }
                k = k + 1;
            }
            proof {
                assert(split_sp(s@).skip(k as int).len() == 0);
                if hands_spec(split_sp(s@).skip(1), 5) is Ok {
                    assert(hand5_views(hands@) + Seq::<Seq<Card>>::empty() =~= hand5_views(
                        hands@,
                    ));
                }
            }
            Ok(Game::FiveCardDraw(hands))
        } else {
            Err(Error::InvalidGameVariant)
        }
    }
}

impl FromStr for Game {
    type Err = Error;

    fn from_str(s: &str) -> Result<Self, Error> {
        Game::parse(s)
    }
}

} // verus!


