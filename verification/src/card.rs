use vstd::prelude::*;
use vstd::string::StrSliceExecFns;
use vstd::string::StringExecFns;
use core::str::FromStr;

use crate::errors::Error;

verus! {

/// The thirteen card ranks, totally ordered from Two (lowest) to Ace
/// (highest).  In a straight the Ace may additionally act as the value
/// just below Two; that exception lives entirely in the straight
/// detection and comparison logic, not here.
#[derive(Debug, Clone, Copy, PartialEq, Eq, PartialOrd, Ord, Hash, Structural)]
pub enum Rank {
    Two,
    Three,
    Four,
    Five,
    Six,
    Seven,
    Eight,
    Nine,
    Ten,
    Jack,
    Queen,
    King,
    Ace,
}

/// The ordinal position of a rank: Two is 2, Ace is 14.
pub open spec fn rank_ord(r: Rank) -> int {
    match r {
        Rank::Two => 2,
        Rank::Three => 3,
        Rank::Four => 4,
        Rank::Five => 5,
        Rank::Six => 6,
        Rank::Seven => 7,
        Rank::Eight => 8,
        Rank::Nine => 9,
        Rank::Ten => 10,
        Rank::Jack => 11,
        Rank::Queen => 12,
        Rank::King => 13,
        Rank::Ace => 14,
    }
}

/// The rank at a given ordinal position; inverse of `rank_ord` on 2..=14.
pub open spec fn rank_of_ord(v: int) -> Rank {
    if v == 3 {
        Rank::Three
    } else if v == 4 {
        Rank::Four
    } else if v == 5 {
        Rank::Five
    } else if v == 6 {
        Rank::Six
    } else if v == 7 {
        Rank::Seven
    } else if v == 8 {
        Rank::Eight
    } else if v == 9 {
        Rank::Nine
    } else if v == 10 {
        Rank::Ten
    } else if v == 11 {
        Rank::Jack
    } else if v == 12 {
        Rank::Queen
    } else if v == 13 {
        Rank::King
    } else if v == 14 {
        Rank::Ace
    } else {
        Rank::Two
    }
}

pub proof fn lemma_rank_ord_of_ord(v: int)
    requires
        2 <= v <= 14,
    ensures
        rank_ord(rank_of_ord(v)) == v,
{
}

pub proof fn lemma_rank_of_ord_ord(r: Rank)
    ensures
        rank_of_ord(rank_ord(r)) == r,
{
}

impl Rank {
    /// The ordinal position of this rank as a machine integer.
    pub fn value(&self) -> (v: u8)
        ensures
            v as int == rank_ord(*self),
    {
        match self {
            Rank::Two => 2,
            Rank::Three => 3,
            Rank::Four => 4,
            Rank::Five => 5,
            Rank::Six => 6,
            Rank::Seven => 7,
            Rank::Eight => 8,
            Rank::Nine => 9,
            Rank::Ten => 10,
            Rank::Jack => 11,
            Rank::Queen => 12,
            Rank::King => 13,
            Rank::Ace => 14,
        }
    }

    /// The rank at a given ordinal position between 2 and 14.
    pub fn from_ord(v: u8) -> (r: Rank)
        requires
            2 <= v <= 14,
        ensures
            r == rank_of_ord(v as int),
    {
        match v {
            2 => Rank::Two,
            3 => Rank::Three,
            4 => Rank::Four,
            5 => Rank::Five,
            6 => Rank::Six,
            7 => Rank::Seven,
            8 => Rank::Eight,
            9 => Rank::Nine,
            10 => Rank::Ten,
            11 => Rank::Jack,
            12 => Rank::Queen,
            13 => Rank::King,
            _ => Rank::Ace,
        }
    }

    /// The one-character compact code of this rank.
    pub fn to_string(&self) -> (r: String)
        ensures
            r@ == seq![rank_char(*self)],
    {
        let s: &str = match self {
            Rank::Two => "2",
            Rank::Three => "3",
            Rank::Four => "4",
            Rank::Five => "5",
            Rank::Six => "6",
            Rank::Seven => "7",
            Rank::Eight => "8",
            Rank::Nine => "9",
            Rank::Ten => "T",
            Rank::Jack => "J",
            Rank::Queen => "Q",
            Rank::King => "K",
            Rank::Ace => "A",
        };
        proof {
            reveal_strlit("2");
            reveal_strlit("3");
            reveal_strlit("4");
            reveal_strlit("5");
            reveal_strlit("6");
            reveal_strlit("7");
            reveal_strlit("8");
            reveal_strlit("9");
            reveal_strlit("T");
            reveal_strlit("J");
            reveal_strlit("Q");
            reveal_strlit("K");
            reveal_strlit("A");
            assert(s@ =~= seq![rank_char(*self)]);
        }
        s.to_owned()
    }
}

/// The compact one-character code of a rank.
pub open spec fn rank_char(r: Rank) -> char {
    match r {
        Rank::Two => '2',
        Rank::Three => '3',
        Rank::Four => '4',
        Rank::Five => '5',
        Rank::Six => '6',
        Rank::Seven => '7',
        Rank::Eight => '8',
        Rank::Nine => '9',
        Rank::Ten => 'T',
        Rank::Jack => 'J',
        Rank::Queen => 'Q',
        Rank::King => 'K',
        Rank::Ace => 'A',
    }
}

/// The rank encoded by a character, if any; inverse of `rank_char`.
pub open spec fn rank_of_char(c: char) -> Option<Rank> {
    if c == '2' {
        Some(Rank::Two)
    } else if c == '3' {
        Some(Rank::Three)
    } else if c == '4' {
        Some(Rank::Four)
    } else if c == '5' {
        Some(Rank::Five)
    } else if c == '6' {
        Some(Rank::Six)
    } else if c == '7' {
        Some(Rank::Seven)
    } else if c == '8' {
        Some(Rank::Eight)
    } else if c == '9' {
        Some(Rank::Nine)
    } else if c == 'T' {
        Some(Rank::Ten)
    } else if c == 'J' {
        Some(Rank::Jack)
    } else if c == 'Q' {
        Some(Rank::Queen)
    } else if c == 'K' {
        Some(Rank::King)
    } else if c == 'A' {
        Some(Rank::Ace)
    } else {
        None
    }
}

/// Decode one rank character.
pub fn rank_from_char(c: char) -> (r: Option<Rank>)
    ensures
        r == rank_of_char(c),
{
    if c == '2' {
        Some(Rank::Two)
    } else if c == '3' {
        Some(Rank::Three)
    } else if c == '4' {
        Some(Rank::Four)
    } else if c == '5' {
        Some(Rank::Five)
    } else if c == '6' {
        Some(Rank::Six)
    } else if c == '7' {
        Some(Rank::Seven)
    } else if c == '8' {
        Some(Rank::Eight)
    } else if c == '9' {
        Some(Rank::Nine)
    } else if c == 'T' {
        Some(Rank::Ten)
    } else if c == 'J' {
        Some(Rank::Jack)
    } else if c == 'Q' {
        Some(Rank::Queen)
    } else if c == 'K' {
        Some(Rank::King)
    } else if c == 'A' {
        Some(Rank::Ace)
    } else {
        None
    }
}

impl Rank {
    /// Parse a one-character rank code; any other input is an invalid rank.
    pub fn parse(s: &str) -> (r: Result<Rank, Error>)
        ensures
            (s@.len() == 1 && rank_of_char(s@[0]) is Some) ==> r == Ok::<Rank, Error>(
                rank_of_char(s@[0]).unwrap(),
            ),
            !(s@.len() == 1 && rank_of_char(s@[0]) is Some) ==> r == Err::<Rank, Error>(
                Error::InvalidRank,
            ),
    {
        if s.unicode_len() == 1 {
            match rank_from_char(s.get_char(0)) {
                Some(r) => Ok(r),
                None => Err(Error::InvalidRank),
            }
        } else {
            Err(Error::InvalidRank)
        }
    }
}

impl FromStr for Rank {
    type Err = Error;

    fn from_str(s: &str) -> Result<Self, Error> {
        Rank::parse(s)
    }
}

/// The four card suits.  Suits have identity only: they are tested for
/// equality when detecting a flush and never ordered.
#[derive(Debug, Clone, Copy, PartialEq, Eq, Hash, Structural)]
pub enum Suit {
    Diamonds,
    Clubs,
    Hearts,
    Spades,
}

/// An older spelling of [`Suit`], kept for callers that still use it.
pub type Suite = Suit;

/// The compact one-character code of a suit.
pub open spec fn suit_char(s: Suit) -> char {
    match s {
        Suit::Clubs => 'c',
        Suit::Diamonds => 'd',
        Suit::Hearts => 'h',
        Suit::Spades => 's',
    }
}

/// The suit encoded by a character, if any; inverse of `suit_char`.
pub open spec fn suit_of_char(c: char) -> Option<Suit> {
    if c == 'c' {
        Some(Suit::Clubs)
    } else if c == 'd' {
        Some(Suit::Diamonds)
    } else if c == 'h' {
        Some(Suit::Hearts)
    } else if c == 's' {
        Some(Suit::Spades)
    } else {
        None
    }
}

/// Decode one suit character.
pub fn suit_from_char(c: char) -> (r: Option<Suit>)
    ensures
        r == suit_of_char(c),
{
    if c == 'c' {
        Some(Suit::Clubs)
    } else if c == 'd' {
        Some(Suit::Diamonds)
    } else if c == 'h' {
        Some(Suit::Hearts)
    } else if c == 's' {
        Some(Suit::Spades)
    } else {
        None
    }
}

impl Suit {
    /// The one-character compact code of this suit.
    pub fn to_string(&self) -> (r: String)
        ensures
            r@ == seq![suit_char(*self)],
    {
        let s: &str = match self {
            Suit::Clubs => "c",
            Suit::Diamonds => "d",
            Suit::Hearts => "h",
            Suit::Spades => "s",
        };
        proof {
            reveal_strlit("c");
            reveal_strlit("d");
            reveal_strlit("h");
            reveal_strlit("s");
            assert(s@ =~= seq![suit_char(*self)]);
        }
        s.to_owned()
    }
}

impl Suit {
    /// Parse a one-character suit code; any other input is an invalid suit.
    pub fn parse(s: &str) -> (r: Result<Suit, Error>)
        ensures
            (s@.len() == 1 && suit_of_char(s@[0]) is Some) ==> r == Ok::<Suit, Error>(
                suit_of_char(s@[0]).unwrap(),
            ),
            !(s@.len() == 1 && suit_of_char(s@[0]) is Some) ==> r == Err::<Suit, Error>(
                Error::InvalidSuit,
            ),
    {
        if s.unicode_len() == 1 {
            match suit_from_char(s.get_char(0)) {
                Some(r) => Ok(r),
                None => Err(Error::InvalidSuit),
            }
        } else {
            Err(Error::InvalidSuit)
        }
    }
}

impl FromStr for Suit {
    type Err = Error;

    fn from_str(s: &str) -> Result<Self, Error> {
        Suit::parse(s)
    }
}

/// A playing card: a rank paired with a suit.
#[derive(Debug, Clone, Copy, PartialEq, Eq, Hash, Structural)]
pub struct Card(pub Rank, pub Suit);

impl Card {
    /// The two-character compact code of this card, rank then suit.
    pub fn to_string(&self) -> (r: String)
        ensures
            r@ == seq![rank_char(self.0), suit_char(self.1)],
    {
        let mut s = self.0.to_string();
        let t = self.1.to_string();
        s.append(t.as_str());
        proof {
            assert(s@ =~= seq![rank_char(self.0), suit_char(self.1)]);
        }
        s
    }
}

/// The cards encoded by a string of two-character card codes, read from the
/// left; a trailing unpaired character is ignored.  The result is the first
/// parse error, if any: an invalid rank character is reported before an
/// invalid suit character of the same pair.
pub open spec fn parse_cards_spec(t: Seq<char>) -> Result<Seq<Card>, Error>
    decreases t.len(),
{
    if t.len() < 2 {
        Ok(Seq::empty())
    } else if rank_of_char(t[0]) is None {
        Err(Error::InvalidRank)
    } else if suit_of_char(t[1]) is None {
        Err(Error::InvalidSuit)
    } else {
        match parse_cards_spec(t.skip(2)) {
            Ok(rest) => Ok(
                seq![Card(rank_of_char(t[0]).unwrap(), suit_of_char(t[1]).unwrap())] + rest,
            ),
            Err(e) => Err(e),
        }
    }
}

/// Parse a string of concatenated two-character card codes, such as a hand
/// or a board in a game descriptor.
pub fn parse_cards(s: &str) -> (r: Result<Vec<Card>, Error>)
    ensures
        (parse_cards_spec(s@) matches Ok(cs) ==> r matches Ok(v) && v@ == cs),
        (parse_cards_spec(s@) matches Err(e) ==> r == Err::<Vec<Card>, Error>(e)),
{
    let n = s.unicode_len();
    let mut v: Vec<Card> = Vec::new();
    let mut i: usize = 0;
    proof {
        assert(s@.skip(0) =~= s@);
        if parse_cards_spec(s@) is Ok {
            let rest = parse_cards_spec(s@)->Ok_0;
            assert(Seq::<Card>::empty() + rest =~= rest);
        }
    }
    while n - i >= 2
        invariant
            n == s@.len(),
            i <= n,
            (parse_cards_spec(s@.skip(i as int)) matches Ok(rest) ==> parse_cards_spec(s@)
                == Ok::<Seq<Card>, Error>(v@ + rest)),
            (parse_cards_spec(s@.skip(i as int)) matches Err(e) ==> parse_cards_spec(s@)
                == Err::<Seq<Card>, Error>(e)),
        decreases n - i,
    {
        let c0 = s.get_char(i);
        let c1 = s.get_char(i + 1);
        proof {
            assert(s@.skip(i as int)[0] == c0);
            assert(s@.skip(i as int)[1] == c1);
        }
        let rank = match rank_from_char(c0) {
            Some(rank) => rank,
            None => {
                return Err(Error::InvalidRank);
            },
        };
        let suit = match suit_from_char(c1) {
            Some(suit) => suit,
            None => {
                return Err(Error::InvalidSuit);
            },
        };
        let ghost old_v = v@;
        v.push(Card(rank, suit));
        proof {
            assert(s@.skip(i as int).skip(2) =~= s@.skip(i + 2));
            if parse_cards_spec(s@.skip(i + 2)) is Ok {
                let rest = parse_cards_spec(s@.skip(i + 2))->Ok_0;
                assert(parse_cards_spec(s@.skip(i as int)) == Ok::<Seq<Card>, Error>(
                    seq![Card(rank, suit)] + rest,
                ));
                assert(old_v + (seq![Card(rank, suit)] + rest) =~= v@ + rest);
            }
        }
        i = i + 2;
    }
    proof {
        assert(s@.skip(i as int).len() < 2);
        if parse_cards_spec(s@) is Ok {
            assert(v@ + Seq::<Card>::empty() =~= v@);
        }
    }
    Ok(v)
}

} // verus!
