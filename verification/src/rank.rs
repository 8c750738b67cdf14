use vstd::prelude::*;
use crate::text::{chars_of, push_chars, string_of};

verus! {

/// How much a picture is liked, from three stars down to none.
#[derive(Clone, Copy, PartialEq, Eq, Structural, Debug)]
pub enum Rank {
    ThreeStars,
    TwoStars,
    OneStar,
    NoStar,
}

/// The place of a rank in the declaration order: three stars first.
pub open spec fn rank_index(r: Rank) -> int {
    match r {
        Rank::ThreeStars => 0,
        Rank::TwoStars => 1,
        Rank::OneStar => 2,
        Rank::NoStar => 3,
    }
}

/// The display of a rank: one star per level above none.
pub open spec fn stars(r: Rank) -> Seq<char> {
    Seq::new((3 - rank_index(r)) as nat, |i: int| '☆')
}

impl Rank {
    /// The place of the rank in the declaration order: three stars first.
    pub fn index(&self) -> (r: usize)
        ensures
            r == rank_index(*self),
    {
        match self {
            Rank::ThreeStars => 0,
            Rank::TwoStars => 1,
            Rank::OneStar => 2,
            Rank::NoStar => 3,
        }
    }

    pub fn show(&self) -> (s: String)
        ensures
            s@ == stars(*self),
    {
        let limit: usize = 3 - self.index();
        let star = chars_of("☆");
        proof {
            reveal_strlit("☆");
        }
        let mut v: Vec<char> = Vec::new();
        let mut i: usize = 0;
        while i < limit
            invariant
                i <= limit <= 3,
                star@ == seq!['☆'],
                v@ == Seq::new(i as nat, |j: int| '☆'),
            decreases limit - i,
        {
            push_chars(&mut v, star.as_slice());
            i = i + 1;
            assert(v@ =~= Seq::new(i as nat, |j: int| '☆'));
        }
        string_of(v.as_slice())
    }
}

}
