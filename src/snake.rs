use vstd::prelude::*;

use crate::position::{Dir, Position};

verus! {

/// The slot of the `k`-th oldest entry of a ring buffer of `cap` slots whose
/// oldest entry sits at `remove`.
pub(crate) open spec fn ring_slot(remove: int, cap: int, k: int) -> int {
    if remove + k < cap {
        remove + k
    } else {
        remove + k - cap
    }
}

/// The `size` live entries of a ring buffer, oldest first.
pub(crate) open spec fn ring_live(body: Seq<Position>, remove: int, size: nat) -> Seq<Position> {
    Seq::new(size, |k: int| body[ring_slot(remove, body.len() as int, k)])
}

/// One player's snake: its head, its heading, its length, and a fixed-capacity
/// ring buffer holding the trail of cells it has occupied, oldest first from
/// `remove_index`, the next free slot at `insert_index`.
#[derive(Debug)]
pub(crate) struct Snake {
    pub(crate) pos: Position,
    pub(crate) dir: Dir,
    pub(crate) size: usize,
    pub(crate) body: Vec<Position>,
    pub(crate) insert_index: usize,
    pub(crate) remove_index: usize,
}

impl Snake {
    pub(crate) open spec fn cap(&self) -> int {
        self.body@.len() as int
    }

    /// The buffer slot holding the `k`-th oldest live entry.
    pub(crate) open spec fn slot(&self, k: int) -> int {
        ring_slot(self.remove_index as int, self.cap(), k)
    }

    /// The live trail, oldest entry first.
    pub(crate) open spec fn live(&self) -> Seq<Position> {
        ring_live(self.body@, self.remove_index as int, self.size as nat)
    }

    pub(crate) open spec fn wf(&self) -> bool {
        &&& self.cap() > 0
        &&& self.insert_index < self.cap()
        &&& self.remove_index < self.cap()
        &&& self.size < self.cap()
        &&& self.insert_index == self.slot(self.size as int)
    }

    /// A fresh snake of length zero with the given head and heading and a
    /// buffer of `capacity` slots.
    pub(crate) fn new(pos: Position, dir: Dir, capacity: usize) -> (r: Snake)
        requires
            capacity > 0,
        ensures
            r.wf(),
            r.pos == pos,
            r.dir == dir,
            r.size == 0,
            r.live() == Seq::<Position>::empty(),
            r.cap() == capacity,
    {
        let body: Vec<Position> = vec![Position { col: 0, row: 0 }; capacity];
        let r = Snake { pos, dir, size: 0, body, insert_index: 0, remove_index: 0 };
        assert(r.live() =~= Seq::<Position>::empty());
        r
    }

    pub(crate) fn icon(&self) -> (r: char)
        ensures
            r == crate::position::icon_of(self.dir),
    {
        self.dir.icon()
    }

    /// Appends `trail` to the buffer. Unless `grow` holds, the oldest entry is
    /// dequeued as well and returned, so that its cell can be cleared.
    pub(crate) fn advance(&mut self, trail: Position, grow: bool) -> (vacated: Option<Position>)
        requires
            old(self).wf(),
            grow ==> old(self).size + 1 < old(self).cap(),
        ensures
            final(self).wf(),
            final(self).pos == old(self).pos,
            final(self).dir == old(self).dir,
            final(self).cap() == old(self).cap(),
            final(self).body@[old(self).insert_index as int] == trail,
            final(self).insert_index == if old(self).insert_index + 1 == old(self).cap() {
                0
            } else {
                old(self).insert_index + 1
            },
            grow ==> final(self).remove_index == old(self).remove_index,
            !grow ==> final(self).remove_index == if old(self).remove_index + 1 == old(self).cap() {
                0
            } else {
                old(self).remove_index + 1
            },
            grow ==> {
                &&& final(self).size == old(self).size + 1
                &&& final(self).live() == old(self).live().push(trail)
                &&& vacated is None
            },
            !grow ==> {
                &&& final(self).size == old(self).size
                &&& final(self).live() == old(self).live().push(trail).drop_first()
                &&& vacated == Some(old(self).live().push(trail)[0])
            },
    {
        let ghost before = *self;
        let cap = self.body.len();
        let i = self.insert_index;
        self.body.set(i, trail);
        self.insert_index = if i + 1 == cap { 0 } else { i + 1 };
        let ghost pushed = before.live().push(trail);
        assert forall|k: int| 0 <= k < before.size implies self.body@[before.slot(k)] == before.body@[before.slot(k)] by {
            assert(before.slot(k) != i);
        }
        if grow {
            self.size = self.size + 1;
            assert(self.live() =~= pushed);
            None
        } else {
            let cleared = self.body[self.remove_index];
            let ri = self.remove_index;
            self.remove_index = if ri + 1 == cap { 0 } else { ri + 1 };
            assert(self.live() =~= pushed.drop_first());
            Some(cleared)
        }
    }
}

} // verus!
