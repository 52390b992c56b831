//! Distinguished points: the predicate on an x-coordinate and the table that
//! finds tame/wild collisions.
use vstd::prelude::*;

verus! {

/// The class of a kangaroo.
#[derive(Clone, Copy, Debug, PartialEq, Eq, Structural)]
pub enum Herd {
    Tame,
    Wild,
}

/// A distinguished point reached by one kangaroo: its x-coordinate (the
/// key), its herd, the distance it had walked, and its index in the batch.
#[derive(Clone, Copy, Debug)]
pub struct DpRecord {
    pub x_key: [u8; 32],
    pub herd: Herd,
    pub distance: [u8; 32],
    pub kangaroo_id: u32,
}

/// A tame and a wild kangaroo that reached the same distinguished point,
/// with the distances each had walked.
#[derive(Clone, Copy, Debug)]
pub struct Collision {
    pub tame_distance: [u8; 32],
    pub wild_distance: [u8; 32],
}

/// Whether `x` (little-endian limbs) is distinguished under `mask`: no bit
/// that the mask sets is set in `x`.
pub fn is_distinguished(x: &[u32; 8], mask: &[u32; 8]) -> (r: bool)
    ensures
        r == forall|i: int| 0 <= i < 8 ==> #[trigger] (x[i] & mask[i]) == 0u32,
{
    let mut i: usize = 0;
    while i < 8
        invariant
            i <= 8,
            forall|j: int| 0 <= j < i ==> #[trigger] (x[j] & mask[j]) == 0u32,
        decreases 8 - i,
    {
        if x[i] & mask[i] != 0 {
            return false;
        }
        i = i + 1;
    }
    true
}

/// The jump that a kangaroo at x-coordinate `x` takes next: limb 0 of `x`
/// modulo the number of jumps.
pub fn jump_index(x: &[u32; 8], n_jumps: u32) -> (r: u32)
    requires
        n_jumps > 0,
    ensures
        r == x[0] % n_jumps,
        r < n_jumps,
{
    x[0] % n_jumps
}

/// What inserting `rec` reports when `existing` already holds its key: a
/// collision where the herds differ, nothing where they are the same.
pub open spec fn collision_of(existing: DpRecord, rec: DpRecord) -> Option<Collision> {
    if existing.herd == rec.herd {
        None
    } else if rec.herd == Herd::Wild {
        Some(Collision { tame_distance: existing.distance, wild_distance: rec.distance })
    } else {
        Some(Collision { tame_distance: rec.distance, wild_distance: existing.distance })
    }
}

/// Whether some record of `s` has the key `key`.
pub open spec fn has_key(s: Seq<DpRecord>, key: Seq<u8>) -> bool {
    exists|i: int| 0 <= i < s.len() && (#[trigger] s[i]).x_key@ == key
}

fn keys_equal(a: &[u8; 32], b: &[u8; 32]) -> (r: bool)
    ensures
        r == (a@ == b@),
{
    let mut i: usize = 0;
    while i < 32
        invariant
            i <= 32,
            forall|j: int| 0 <= j < i ==> a@[j] == b@[j],
        decreases 32 - i,
    {
        if a[i] != b[i] {
            return false;
        }
        i = i + 1;
    }
    assert(a@ =~= b@);
    true
}

/// The distinguished points seen so far, one record per x-coordinate: the
/// first that reached it.
pub struct DPTable {
    entries: Vec<DpRecord>,
}

impl DPTable {
    /// The records held, in order of insertion.
    pub closed spec fn view(&self) -> Seq<DpRecord> {
        self.entries@
    }

    /// No two records share a key.
    pub open spec fn wf(&self) -> bool {
        forall|i: int, j: int|
            0 <= i < j < self@.len() ==> (#[trigger] self@[i]).x_key@ != (#[trigger] self@[j]).x_key@
    }

    /// An empty table.
    pub fn new() -> (t: DPTable)
        ensures
            t@ == Seq::<DpRecord>::empty(),
            t.wf(),
    {
        DPTable { entries: Vec::new() }
    }

    /// The number of distinguished points held.
    pub fn len(&self) -> (n: usize)
        ensures
            n == self@.len(),
    {
        self.entries.len()
    }

    /// The record held for `x_key`, if any.
    pub fn get(&self, x_key: &[u8; 32]) -> (r: Option<DpRecord>)
        requires
            self.wf(),
        ensures
            r is None <==> !has_key(self@, x_key@),
            r matches Some(e) ==> exists|i: int|
                0 <= i < self@.len() && self@[i] == e && (#[trigger] self@[i]).x_key@ == x_key@,
    {
        match self.find(x_key) {
            Some(i) => Some(self.entries[i]),
            None => None,
        }
    }

    fn find(&self, x_key: &[u8; 32]) -> (r: Option<usize>)
        ensures
            r is None <==> !has_key(self@, x_key@),
            r matches Some(i) ==> i < self@.len() && self@[i as int].x_key@ == x_key@,
    {
        let mut i: usize = 0;
        while i < self.entries.len()
            invariant
                i <= self.entries@.len(),
                forall|j: int| 0 <= j < i ==> (#[trigger] self.entries@[j]).x_key@ != x_key@,
            decreases self.entries@.len() - i,
        {
            if keys_equal(&self.entries[i].x_key, x_key) {
                return Some(i);
            }
            i = i + 1;
        }
        None
    }

    /// Record a distinguished point. A new key is stored and nothing is
    /// reported. A key already held keeps its first record; where that record
    /// is of the other herd, the tame and wild distances are reported.
    pub fn insert(&mut self, rec: DpRecord) -> (r: Option<Collision>)
        requires
            old(self).wf(),
        ensures
            final(self).wf(),
            !has_key(old(self)@, rec.x_key@) ==> r is None && final(self)@ == old(self)@.push(rec),
            forall|i: int|
                0 <= i < old(self)@.len() && (#[trigger] old(self)@[i]).x_key@ == rec.x_key@ ==> r
                    == collision_of(old(self)@[i], rec) && final(self)@ == old(self)@,
    {
        match self.find(&rec.x_key) {
            Some(i) => {
                let e = self.entries[i];
                proof {
                    assert forall|j: int|
                        0 <= j < self@.len() && (#[trigger] self@[j]).x_key@ == rec.x_key@ implies j
                        == i by {
                        if j != i {
                            assert(self@[j].x_key@ != self@[i as int].x_key@);
                        }
                    }
                }
                if e.herd == rec.herd {
                    None
                } else if rec.herd == Herd::Wild {
                    Some(Collision { tame_distance: e.distance, wild_distance: rec.distance })
                } else {
                    Some(Collision { tame_distance: rec.distance, wild_distance: e.distance })
                }
            },
            None => {
                self.entries.push(rec);
                proof {
                    assert forall|a: int, b: int|
                        0 <= a < b < self@.len() implies (#[trigger] self@[a]).x_key@ != (
                        #[trigger] self@[b]).x_key@ by {
                        if b == self@.len() - 1 {
                            assert(old(self)@[a] == self@[a]);
                        }
                    }
                }
                None
            },
        }
    }
}

} // verus!
