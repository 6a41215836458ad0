use vstd::prelude::*;

use crate::path::pair_views;

verus! {

/// The record of the files moved into the staging area: `olds[i]` was moved
/// to `news[i]`, in the order the moves were made.
pub struct Guard {
    olds: Vec<String>,
    news: Vec<String>,
}

/// Each move turned around: from the second place back to the first.
pub open spec fn reversed_moves(moves: Seq<(Seq<char>, Seq<char>)>) -> Seq<(Seq<char>, Seq<char>)> {
    moves.map_values(|m: (Seq<char>, Seq<char>)| (m.1, m.0))
}

impl View for Guard {
    type V = Seq<(Seq<char>, Seq<char>)>;

    /// The recorded moves, as (original, staged) pairs in the order made.
    closed spec fn view(&self) -> Seq<(Seq<char>, Seq<char>)> {
        Seq::new(self.olds.len() as nat, |i: int| (self.olds@[i]@, self.news@[i]@))
    }
}

impl Guard {
    /// The two sequences stay index-aligned.
    pub closed spec fn wf(&self) -> bool {
        self.olds.len() == self.news.len()
    }

    /// A record of no moves.
    pub fn new() -> (r: Guard)
        ensures
            r.wf(),
            r@ == Seq::<(Seq<char>, Seq<char>)>::empty(),
    {
        let r = Guard { olds: Vec::new(), news: Vec::new() };
        assert(r@ =~= Seq::<(Seq<char>, Seq<char>)>::empty());
        r
    }

    /// Records that the file at `original` now stands at `staged`.
    pub fn record(&mut self, original: String, staged: String)
        requires
            old(self).wf(),
        ensures
            final(self).wf(),
            final(self)@ == old(self)@.push((original@, staged@)),
    {
        let ghost before = self@;
        let ghost item = (original@, staged@);
        self.olds.push(original);
        self.news.push(staged);
        assert(self@ =~= before.push(item));
    }

    /// The number of recorded moves.
    pub fn len(&self) -> (r: usize)
        requires
            self.wf(),
        ensures
            r == self@.len(),
    {
        self.olds.len()
    }

    /// Whether no move was recorded.
    pub fn is_empty(&self) -> (r: bool)
        requires
            self.wf(),
        ensures
            r == (self@.len() == 0),
    {
        self.olds.len() == 0
    }

    /// The moves that put every recorded file back: from its staged place to
    /// its original place, in the order the files were recorded.
    pub fn restore_moves(&self) -> (r: Vec<(String, String)>)
        requires
            self.wf(),
        ensures
            pair_views(r@) == reversed_moves(self@),
    {
        let mut out: Vec<(String, String)> = Vec::new();
        let mut i: usize = 0;
        while i < self.olds.len()
            invariant
                self.wf(),
                i <= self.olds.len(),
                pair_views(out@) == reversed_moves(self@).take(i as int),
            decreases self.olds.len() - i,
        {
            let ghost before = out@;
            let item = (self.news[i].clone(), self.olds[i].clone());
            let ghost iv = (item.0@, item.1@);
            assert(reversed_moves(self@)[i as int] == iv);
            out.push(item);
            assert(pair_views(out@) =~= pair_views(before).push(iv));
            assert(reversed_moves(self@).take(i + 1) =~= reversed_moves(self@).take(i as int).push(iv));
            i = i + 1;
        }
        assert(reversed_moves(self@).take(i as int) =~= reversed_moves(self@));
        out
    }
}

} // verus!
