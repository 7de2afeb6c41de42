//! The occupancy index: the per-tick map from grid cell to occupying block,
//! and the pending-erase set of the command layer.

use vstd::prelude::*;

use crate::block::Block;
use crate::vector::Vector2;

verus! {

/// The occupancy map described by an ordered block list: each block is
/// keyed by its position, and a later entry at the same coordinate
/// overwrites an earlier one (last in the list wins).
pub open spec fn occupancy_of(s: Seq<Block>) -> Map<Vector2, Block>
    decreases s.len(),
{
    if s.len() == 0 {
        Map::empty()
    } else {
        occupancy_of(s.drop_last()).insert(s.last().position, s.last())
    }
}

/// No two blocks of the list share a coordinate.
pub open spec fn distinct_positions(s: Seq<Block>) -> bool {
    forall|i: int, j: int| 0 <= i < j < s.len() ==> s[i].position != s[j].position
}

/// A cell is occupied exactly when some block of the list sits on it.
pub proof fn lemma_occupancy_contains(s: Seq<Block>, p: Vector2)
    ensures
        occupancy_of(s).dom().contains(p) <==> (exists|i: int|
            0 <= i < s.len() && s[i].position == p),
    decreases s.len(),
{
    if s.len() == 0 {
    } else {
        let t = s.drop_last();
        lemma_occupancy_contains(t, p);
        if s.last().position == p {
            assert(s[s.len() - 1].position == p);
        } else {
            if occupancy_of(s).dom().contains(p) {
                let i = choose|i: int| 0 <= i < t.len() && t[i].position == p;
                assert(s[i].position == p);
            }
            if exists|i: int| 0 <= i < s.len() && s[i].position == p {
                let i = choose|i: int| 0 <= i < s.len() && s[i].position == p;
                assert(i < s.len() - 1);
                assert(t[i].position == p);
            }
        }
    }
}

/// Every occupant is recorded at its own coordinate: the index never holds
/// a block under a cell the block does not occupy.
pub proof fn lemma_occupancy_position(s: Seq<Block>, p: Vector2)
    requires
        occupancy_of(s).dom().contains(p),
    ensures
        occupancy_of(s)[p].position == p,
    decreases s.len(),
{
    if s.len() == 0 {
    } else if s.last().position == p {
    } else {
        lemma_occupancy_position(s.drop_last(), p);
    }
}

/// In a list without shared coordinates, the index maps each block's
/// position to that very block.
pub proof fn lemma_occupancy_at(s: Seq<Block>, i: int)
    requires
        distinct_positions(s),
        0 <= i < s.len(),
    ensures
        occupancy_of(s).dom().contains(s[i].position),
        occupancy_of(s)[s[i].position] == s[i],
    decreases s.len(),
{
    let t = s.drop_last();
    if i == s.len() - 1 {
    } else {
        assert(distinct_positions(t)) by {
            assert(forall|a: int, b: int|
                0 <= a < b < t.len() ==> s[a].position != s[b].position);
        }
        lemma_occupancy_at(t, i);
        assert(s.last().position != s[i].position);
    }
}

/// Every occupant of the index is an element of the list.
pub proof fn lemma_occupancy_value_member(s: Seq<Block>, p: Vector2)
    requires
        occupancy_of(s).dom().contains(p),
    ensures
        exists|i: int| 0 <= i < s.len() && s[i] == occupancy_of(s)[p],
    decreases s.len(),
{
    if s.len() == 0 {
    } else if s.last().position == p {
        assert(s[s.len() - 1] == occupancy_of(s)[p]);
    } else {
        lemma_occupancy_value_member(s.drop_last(), p);
        let t = s.drop_last();
        let i = choose|i: int| 0 <= i < t.len() && t[i] == occupancy_of(t)[p];
        assert(s[i] == occupancy_of(s)[p]);
    }
}

/// The index maps a cell to the last block of the list that occupies it.
pub proof fn lemma_occupancy_last(s: Seq<Block>, i: int)
    requires
        0 <= i < s.len(),
        forall|j: int| i < j < s.len() ==> s[j].position != s[i].position,
    ensures
        occupancy_of(s).dom().contains(s[i].position),
        occupancy_of(s)[s[i].position] == s[i],
    decreases s.len(),
{
    let t = s.drop_last();
    if i == s.len() - 1 {
    } else {
        assert(s[s.len() - 1].position != s[i].position);
        assert(forall|j: int| i < j < t.len() ==> t[j].position != t[i].position) by {
            assert(forall|j: int| 0 <= j < t.len() ==> t[j] == s[j]);
        }
        lemma_occupancy_last(t, i);
    }
}

/// Appending a block updates the occupancy map at the block's cell.
pub proof fn lemma_occupancy_push(s: Seq<Block>, b: Block)
    ensures
        occupancy_of(s.push(b)) == occupancy_of(s).insert(b.position, b),
{
    assert(s.push(b).drop_last() =~= s);
    assert(s.push(b).last() == b);
}

/// Replacing the last block that occupies a cell with another block of the
/// same cell updates the occupancy map at that cell only.
pub proof fn lemma_occupancy_update_last(s: Seq<Block>, i: int, b: Block)
    requires
        0 <= i < s.len(),
        b.position == s[i].position,
        forall|j: int| i < j < s.len() ==> s[j].position != s[i].position,
    ensures
        occupancy_of(s.update(i, b)) == occupancy_of(s).insert(b.position, b),
    decreases s.len(),
{
    let p = b.position;
    let t = s.drop_last();
    if i == s.len() - 1 {
        assert(s.update(i, b).drop_last() =~= t);
        assert(s.update(i, b).last() == b);
        assert(occupancy_of(t).insert(p, b) =~= occupancy_of(t).insert(p, s.last()).insert(p, b));
    } else {
        assert(s.update(i, b).drop_last() =~= t.update(i, b));
        assert(s.update(i, b).last() == s.last());
        assert(forall|j: int| i < j < t.len() ==> t[j].position != t[i].position) by {
            assert(forall|j: int| i < j < t.len() ==> s[j].position == t[j].position);
        }
        lemma_occupancy_update_last(t, i, b);
        let q = s.last().position;
        assert(q != p) by {
            assert(s[s.len() - 1].position != s[i].position);
        }
        assert(occupancy_of(t).insert(p, b).insert(q, s.last()) =~= occupancy_of(t).insert(
            q,
            s.last(),
        ).insert(p, b));
    }
}

/// The per-tick coordinate-to-block lookup table, the ground truth for
/// collision queries.  Rebuilt every tick; immutable once built.
pub struct OccupancyIndex {
    entries: Vec<Block>,
}

impl OccupancyIndex {
    /// The mapping this index answers queries from.
    pub closed spec fn occ(self) -> Map<Vector2, Block> {
        occupancy_of(self.entries@)
    }

    /// At most one stored entry per coordinate.
    pub closed spec fn wf(self) -> bool {
        distinct_positions(self.entries@)
    }

    pub fn new() -> (r: OccupancyIndex)
        ensures
            r.occ() == Map::<Vector2, Block>::empty(),
            r.wf(),
    {
        OccupancyIndex { entries: Vec::new() }
    }

    /// Inserts a block keyed by its position; a block already stored at
    /// that coordinate is overwritten (last inserted wins).
    pub fn insert(&mut self, b: Block)
        requires
            old(self).wf(),
        ensures
            final(self).occ() == old(self).occ().insert(b.position, b),
            final(self).wf(),
    {
        let n = self.entries.len();
        for i in 0..n
            invariant
                n == self.entries.len(),
                old(self).wf(),
                *self == *old(self),
                forall|j: int| 0 <= j < i ==> self.entries@[j].position != b.position,
        {
            if self.entries[i].position == b.position {
                proof {
                    lemma_occupancy_update_last(self.entries@, i as int, b);
                }
                self.entries[i] = b;
                proof {
                    assert(distinct_positions(self.entries@));
                }
                return;
            }
        }
        proof {
            lemma_occupancy_push(self.entries@, b);
            lemma_occupancy_contains(self.entries@, b.position);
        }
        self.entries.push(b);
    }

    /// Looks up the block occupying a cell, if any.
    pub fn query(&self, p: Vector2) -> (r: Option<Block>)
        requires
            self.wf(),
        ensures
            match r {
                Some(b) => self.occ().dom().contains(p) && self.occ()[p] == b,
                None => !self.occ().dom().contains(p),
            },
    {
        let n = self.entries.len();
        for i in 0..n
            invariant
                n == self.entries.len(),
                self.wf(),
                forall|j: int| 0 <= j < i ==> self.entries@[j].position != p,
        {
            if self.entries[i].position == p {
                proof {
                    lemma_occupancy_at(self.entries@, i as int);
                }
                return Some(self.entries[i]);
            }
        }
        proof {
            lemma_occupancy_contains(self.entries@, p);
        }
        None
    }

    /// Whether a cell is occupied.
    pub fn contains(&self, p: Vector2) -> (r: bool)
        requires
            self.wf(),
        ensures
            r == self.occ().dom().contains(p),
    {
        self.query(p).is_some()
    }

    /// Builds the index of a block list: each block keyed by its position,
    /// later entries overwriting earlier ones at the same coordinate.
    pub fn build(blocks: &Vec<Block>) -> (r: OccupancyIndex)
        ensures
            r.occ() == occupancy_of(blocks@),
            r.wf(),
    {
        let mut r = OccupancyIndex::new();
        let n = blocks.len();
        for i in 0..n
            invariant
                n == blocks.len(),
                r.occ() == occupancy_of(blocks@.take(i as int)),
                r.wf(),
        {
            proof {
                assert(blocks@.take(i + 1).drop_last() =~= blocks@.take(i as int));
                assert(blocks@.take(i + 1).last() == blocks@[i as int]);
            }
            r.insert(blocks[i]);
        }
        proof {
            assert(blocks@.take(n as int) =~= blocks@);
        }
        r
    }
}

/// The coordinates collected by erase commands during the current tick;
/// any block standing on one of them is dropped at the start of the next
/// tick.
pub struct EraseSet {
    positions: Vec<Vector2>,
}

impl EraseSet {
    /// The set of marked coordinates.
    pub closed spec fn coords(self) -> Set<Vector2> {
        Set::new(|p: Vector2| self.positions@.contains(p))
    }

    pub fn new() -> (r: EraseSet)
        ensures
            r.coords() == Set::<Vector2>::empty(),
    {
        let r = EraseSet { positions: Vec::new() };
        proof {
            assert(r.coords() =~= Set::<Vector2>::empty());
        }
        r
    }

    /// Marks a coordinate for erasure.
    pub fn record(&mut self, p: Vector2)
        ensures
            final(self).coords() == old(self).coords().insert(p),
    {
        self.positions.push(p);
        proof {
            let s_old = old(self).positions@;
            let s_new = self.positions@;
            assert forall|q: Vector2|
                self.coords().contains(q) == old(self).coords().insert(p).contains(q) by {
                if q == p {
                    assert(s_new[s_new.len() - 1] == p);
                } else {
                    if s_old.contains(q) {
                        let i = choose|i: int| 0 <= i < s_old.len() && s_old[i] == q;
                        assert(s_new[i] == q);
                    } else if s_new.contains(q) {
                        let i = choose|i: int| 0 <= i < s_new.len() && s_new[i] == q;
                        assert(i < s_old.len());
                        assert(s_old[i] == q);
                    }
                }
            }
            assert(self.coords() =~= old(self).coords().insert(p));
        }
    }

    /// Whether a coordinate is marked.
    pub fn contains(&self, p: Vector2) -> (r: bool)
        ensures
            r == self.coords().contains(p),
    {
        let n = self.positions.len();
        for i in 0..n
            invariant
                n == self.positions.len(),
                forall|j: int| 0 <= j < i ==> self.positions@[j] != p,
        {
            if self.positions[i] == p {
                return true;
            }
        }
        false
    }

    /// Unmarks everything.
    pub fn clear(&mut self)
        ensures
            final(self).coords() == Set::<Vector2>::empty(),
    {
        self.positions.clear();
        proof {
            assert(final(self).coords() =~= Set::<Vector2>::empty());
        }
    }
}

} // verus!
