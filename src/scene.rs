//! Bookkeeping of the physics scene that involves no arithmetic on
//! coordinates: the motion trail of a body, and the choice of gaps in a
//! boundary polygon.

use vstd::prelude::*;

verus! {

/// How many recent positions a trail keeps.
pub const TRAIL_CAPACITY: usize = 15;

/// The last `n` elements of `s`, or all of them when there are fewer.
pub open spec fn keep_last<T>(s: Seq<T>, n: nat) -> Seq<T> {
    if s.len() > n {
        s.subrange(s.len() - n, s.len() as int)
    } else {
        s
    }
}

/// The most recent positions of a body, oldest first, at most
/// `TRAIL_CAPACITY` of them.
pub struct Trail<T> {
    points: Vec<T>,
}

impl<T> Trail<T> {
    /// The trail holds no more than its capacity.
    pub closed spec fn wf(&self) -> bool {
        self.points@.len() <= TRAIL_CAPACITY
    }

    /// The positions, oldest first.
    pub closed spec fn view(&self) -> Seq<T> {
        self.points@
    }

    pub fn new() -> (r: Self)
        ensures
            r.wf(),
            r@ == Seq::<T>::empty(),
    {
        Trail { points: Vec::new() }
    }

    /// Appends `p`, dropping the oldest position once the trail is full.
    pub fn push(&mut self, p: T)
        requires
            old(self).wf(),
        ensures
            final(self).wf(),
            final(self)@ == keep_last(old(self)@.push(p), TRAIL_CAPACITY as nat),
    {
        self.points.push(p);
        if self.points.len() > TRAIL_CAPACITY {
            self.points.remove(0);
            assert(self.points@ =~= keep_last(old(self)@.push(p), TRAIL_CAPACITY as nat));
        }
    }

    pub fn len(&self) -> (r: usize)
        ensures
            r == self@.len(),
    {
        self.points.len()
    }

    /// The positions, oldest first.
    pub fn points(&self) -> (r: &Vec<T>)
        ensures
            r@ == self@,
    {
        &self.points
    }
}

/// How many of the flags are false.
pub open spec fn count_false(s: Seq<bool>) -> nat
    decreases s.len(),
{
    if s.len() == 0 {
        0
    } else {
        count_false(s.drop_last()) + if s.last() {
            0nat
        } else {
            1nat
        }
    }
}

proof fn lemma_count_false_update(s: Seq<bool>, i: int)
    requires
        0 <= i < s.len(),
        s[i],
    ensures
        count_false(s.update(i, false)) == count_false(s) + 1,
    decreases s.len(),
{
    let t = s.update(i, false);
    if i < s.len() - 1 {
        assert(t.drop_last() =~= s.drop_last().update(i, false));
        lemma_count_false_update(s.drop_last(), i);
    } else {
        assert(t.drop_last() =~= s.drop_last());
    }
}

proof fn lemma_count_false_all_true(n: nat)
    ensures
        count_false(Seq::new(n, |i: int| true)) == 0,
    decreases n,
{
    if n > 0 {
        assert(Seq::new(n, |i: int| true).drop_last() =~= Seq::new((n - 1) as nat, |i: int| true));
        lemma_count_false_all_true((n - 1) as nat);
    }
}

/// The choice of gaps in a boundary polygon: edges start active, and edges
/// offered one at a time (in practice at random) are removed until the
/// wanted number of gaps is reached; an edge already removed is passed over.
pub struct EdgeGaps {
    active: Vec<bool>,
    removed: usize,
    wanted: usize,
}

impl EdgeGaps {
    /// The count of removed edges is that of inactive flags, and never more
    /// than wanted.
    pub closed spec fn wf(&self) -> bool {
        &&& self.removed == count_false(self.active@)
        &&& self.removed <= self.wanted
    }

    /// Which edges are active; edge `i` joins vertex `i` to vertex `i + 1`.
    pub closed spec fn view(&self) -> Seq<bool> {
        self.active@
    }

    /// The number of gaps wanted.
    pub closed spec fn target(&self) -> nat {
        self.wanted as nat
    }

    /// The number of gaps made so far.
    pub closed spec fn made(&self) -> nat {
        self.removed as nat
    }

    /// The gaps made are the inactive edges, and never more than wanted.
    pub proof fn lemma_gaps_are_inactive_edges(&self)
        requires
            self.wf(),
        ensures
            self.made() == count_false(self@),
            self.made() <= self.target(),
    {
    }

    /// `sides` active edges, of which `wanted` are to become gaps.
    pub fn new(sides: usize, wanted: usize) -> (r: EdgeGaps)
        requires
            wanted <= sides,
        ensures
            r.wf(),
            r@ == Seq::new(sides as nat, |i: int| true),
            r.target() == wanted,
            r.made() == 0,
    {
        let mut active: Vec<bool> = Vec::new();
        let mut i: usize = 0;
        while i < sides
            invariant
                i <= sides,
                active@ == Seq::new(i as nat, |k: int| true),
            decreases sides - i,
        {
            active.push(true);
            i = i + 1;
            assert(active@ =~= Seq::new(i as nat, |k: int| true));
        }
        proof {
            lemma_count_false_all_true(sides as nat);
        }
        EdgeGaps { active, removed: 0, wanted }
    }

    /// Whether all wanted gaps have been made.
    pub fn is_complete(&self) -> (r: bool)
        requires
            self.wf(),
        ensures
            r == (self.made() == self.target()),
    {
        self.removed >= self.wanted
    }

    /// Offers edge `idx` as a gap: it is removed when it is still active and
    /// more gaps are wanted. Says whether it was removed.
    pub fn offer(&mut self, idx: usize) -> (r: bool)
        requires
            old(self).wf(),
            idx < old(self)@.len(),
        ensures
            final(self).wf(),
            final(self).target() == old(self).target(),
            r == (old(self)@[idx as int] && old(self).made() < old(self).target()),
            final(self).made() == if r {
                old(self).made() + 1
            } else {
                old(self).made()
            },
            final(self)@ == if r {
                old(self)@.update(idx as int, false)
            } else {
                old(self)@
            },
    {
        if self.removed < self.wanted && self.active[idx] {
            proof {
                lemma_count_false_update(self.active@, idx as int);
            }
            self.active.set(idx, false);
            self.removed = self.removed + 1;
            true
        } else {
            false
        }
    }

    /// The active-edge flags.
    pub fn active_edges(&self) -> (r: &Vec<bool>)
        ensures
            r@ == self@,
    {
        &self.active
    }
}

} // verus!
