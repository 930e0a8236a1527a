//! The six dice slots of a throw.

use vstd::prelude::*;

verus! {

/// Number of dice slots in a throw.
pub const SLOTS: usize = 6;

/// A face that a die can show.
pub open spec fn valid_face(v: u32) -> bool {
    1 <= v <= 6
}

/// Six slots, each empty or holding a valid face.
pub open spec fn valid_slots(s: Seq<Option<u32>>) -> bool {
    &&& s.len() == SLOTS
    &&& forall|i: int| 0 <= i < SLOTS && #[trigger] s[i] is Some ==> valid_face(s[i]->0)
}

/// Number of occupied slots among the first `n`.
pub open spec fn occupied_in(s: Seq<Option<u32>>, n: int) -> nat
    decreases n,
{
    if n <= 0 {
        0
    } else {
        occupied_in(s, n - 1) + if s[n - 1] is Some {
            1nat
        } else {
            0nat
        }
    }
}

/// Number of occupied slots.
pub open spec fn occupied(s: Seq<Option<u32>>) -> nat {
    occupied_in(s, SLOTS as int)
}

/// Faces of the occupied slots among the first `n`, in slot order.
pub open spec fn faces_in(s: Seq<Option<u32>>, n: int) -> Seq<u32>
    decreases n,
{
    if n <= 0 {
        Seq::empty()
    } else {
        let prev = faces_in(s, n - 1);
        match s[n - 1] {
            Some(v) => prev.push(v),
            None => prev,
        }
    }
}

/// Faces of the occupied slots, in slot order.
pub open spec fn faces(s: Seq<Option<u32>>) -> Seq<u32> {
    faces_in(s, SLOTS as int)
}

/// Slot and face of each occupied slot among the first `n`, in slot order.
pub open spec fn items_in(s: Seq<Option<u32>>, n: int) -> Seq<(usize, u32)>
    decreases n,
{
    if n <= 0 {
        Seq::empty()
    } else {
        let prev = items_in(s, n - 1);
        match s[n - 1] {
            Some(v) => prev.push(((n - 1) as usize, v)),
            None => prev,
        }
    }
}

/// Relies on rand's `thread_rng` and `Rng::gen_range`: a draw from the range 1..7.
#[verifier::external_body]
fn roll_die() -> (r: u32)
    ensures
        valid_face(r),
{
    rand::Rng::gen_range(&mut rand::thread_rng(), 1..7u32)
}

/// `n` independent draws.
pub(crate) fn roll_dice(n: usize) -> (r: Vec<u32>)
    ensures
        r@.len() == n,
        forall|k: int| 0 <= k < n ==> valid_face(#[trigger] r@[k]),
{
    let mut r: Vec<u32> = Vec::new();
    let mut i: usize = 0;
    while i < n
        invariant
            i <= n,
            r@.len() == i,
            forall|k: int| 0 <= k < i ==> valid_face(#[trigger] r@[k]),
        decreases n - i,
    {
        r.push(roll_die());
        i = i + 1;
    }
    r
}

/// Six independent draws, one for each slot of a throw.
pub(crate) fn roll_faces() -> (r: [u32; 6])
    ensures
        forall|k: int| 0 <= k < SLOTS ==> valid_face(#[trigger] r@[k]),
{
    [roll_die(), roll_die(), roll_die(), roll_die(), roll_die(), roll_die()]
}

proof fn lemma_occupied_grows(s: Seq<Option<u32>>, a: int, b: int)
    requires
        0 <= a <= b,
    ensures
        occupied_in(s, a) <= occupied_in(s, b),
    decreases b - a,
{
    if a < b {
        lemma_occupied_grows(s, a, b - 1);
    }
}

/// Six dice slots; an empty slot holds a die consumed earlier in the turn.
pub struct DiceSet {
    slots: Vec<Option<u32>>,
}

impl View for DiceSet {
    type V = Seq<Option<u32>>;

    closed spec fn view(&self) -> Seq<Option<u32>> {
        self.slots@
    }
}

impl DiceSet {
    pub open spec fn wf(&self) -> bool {
        valid_slots(self@)
    }

    /// A throw of six dice: each slot shows one independent draw.
    pub fn fresh() -> (r: DiceSet)
        ensures
            r.wf(),
            forall|i: int| 0 <= i < SLOTS ==> #[trigger] r@[i] is Some,
    {
        let faces = roll_faces();
        let r = DiceSet::from_faces(faces);
        r.unwrap()
    }

    /// The dice set with the given slots, if each occupied slot holds a valid face.
    pub fn from_slots(slots: [Option<u32>; 6]) -> (r: Option<DiceSet>)
        ensures
            r is Some <==> valid_slots(slots@),
            r is Some ==> r->0@ == slots@,
    {
        let mut v: Vec<Option<u32>> = Vec::new();
        let mut i: usize = 0;
        while i < SLOTS
            invariant
                i <= SLOTS,
                slots@.len() == SLOTS,
                v@ == slots@.take(i as int),
                forall|j: int| 0 <= j < i && #[trigger] slots@[j] is Some ==> valid_face(
                    slots@[j]->0,
                ),
            decreases SLOTS - i,
        {
            match slots[i] {
                Some(f) => {
                    if f < 1 || f > 6 {
                        return None;
                    }
                },
                None => {},
            }
            v.push(slots[i]);
            i = i + 1;
            assert(v@ =~= slots@.take(i as int));
        }
        assert(v@ =~= slots@);
        Some(DiceSet { slots: v })
    }

    /// Six occupied slots showing the given faces, if each is a valid face.
    pub fn from_faces(faces: [u32; 6]) -> (r: Option<DiceSet>)
        ensures
            r is Some <==> forall|i: int| 0 <= i < SLOTS ==> valid_face(#[trigger] faces@[i]),
            r is Some ==> r->0.wf(),
            r is Some ==> forall|i: int| 0 <= i < SLOTS ==> #[trigger] r->0@[i] == Some(faces@[i]),
    {
        let slots = [
            Some(faces[0]),
            Some(faces[1]),
            Some(faces[2]),
            Some(faces[3]),
            Some(faces[4]),
            Some(faces[5]),
        ];
        let r = DiceSet::from_slots(slots);
        proof {
            if !(r is Some) {
                let i = choose|i: int| 0 <= i < SLOTS && #[trigger] slots@[i] is Some && !valid_face(
                    slots@[i]->0,
                );
                assert(!valid_face(faces@[i]));
            }
        }
        r
    }

    /// Slot and face of each occupied slot, in slot order.
    pub fn items(&self) -> (r: Vec<(usize, u32)>)
        requires
            self.wf(),
        ensures
            r@ == items_in(self@, SLOTS as int),
    {
        let mut r: Vec<(usize, u32)> = Vec::new();
        let mut i: usize = 0;
        while i < SLOTS
            invariant
                self.wf(),
                i <= SLOTS,
                r@ == items_in(self@, i as int),
            decreases SLOTS - i,
        {
            match self.slots[i] {
                Some(v) => r.push((i, v)),
                None => {},
            }
            i = i + 1;
        }
        r
    }

    /// Faces of the occupied slots, in slot order.
    pub fn values(&self) -> (r: Vec<u32>)
        requires
            self.wf(),
        ensures
            r@ == faces(self@),
    {
        let mut r: Vec<u32> = Vec::new();
        let mut i: usize = 0;
        while i < SLOTS
            invariant
                self.wf(),
                i <= SLOTS,
                r@ == faces_in(self@, i as int),
            decreases SLOTS - i,
        {
            match self.slots[i] {
                Some(v) => r.push(v),
                None => {},
            }
            i = i + 1;
        }
        r
    }

    /// Number of occupied slots.
    pub fn occupied_count(&self) -> (r: usize)
        requires
            self.wf(),
        ensures
            r == occupied(self@),
    {
        let mut r: usize = 0;
        let mut i: usize = 0;
        while i < SLOTS
            invariant
                self.wf(),
                i <= SLOTS,
                r == occupied_in(self@, i as int),
                r <= i,
            decreases SLOTS - i,
        {
            if self.slots[i].is_some() {
                r = r + 1;
            }
            i = i + 1;
        }
        r
    }

    /// Whether every slot is empty.
    pub fn is_exhausted(&self) -> (r: bool)
        requires
            self.wf(),
        ensures
            r == (occupied(self@) == 0),
    {
        self.occupied_count() == 0
    }

    /// Empties the given slots, each of which must be occupied.
    pub fn consume(&mut self, slots: &Vec<usize>)
        requires
            old(self).wf(),
            forall|k: int| 0 <= k < slots@.len() ==> #[trigger] slots@[k] < SLOTS,
            forall|k: int|
                0 <= k < slots@.len() ==> old(self)@[#[trigger] slots@[k] as int] is Some,
        ensures
            final(self).wf(),
            forall|i: int|
                0 <= i < SLOTS ==> #[trigger] final(self)@[i] == if slots@.contains(i as usize) {
                    None
                } else {
                    old(self)@[i]
                },
    {
        let mut k: usize = 0;
        while k < slots.len()
            invariant
                old(self).wf(),
                self.wf(),
                k <= slots@.len(),
                forall|j: int| 0 <= j < slots@.len() ==> #[trigger] slots@[j] < SLOTS,
                forall|i: int|
                    0 <= i < SLOTS ==> #[trigger] self@[i] == if slots@.take(k as int).contains(
                        i as usize,
                    ) {
                        None
                    } else {
                        old(self)@[i]
                    },
            decreases slots@.len() - k,
        {
            let slot = slots[k];
            let ghost prev = self@;
            self.slots[slot] = None;
            proof {
                let done = slots@.take(k as int);
                assert(slots@.take(k + 1) =~= done.push(slot));
                assert forall|i: int| 0 <= i < SLOTS implies #[trigger] self@[i] == if slots@.take(
                    k + 1,
                ).contains(i as usize) {
                    None
                } else {
                    old(self)@[i]
                } by {
                    assert(self@[i] == if i == slot as int { None } else { prev[i] });
                    if i != slot as int {
                        assert(done.push(slot).contains(i as usize) ==> done.contains(i as usize)) by {
                            if done.push(slot).contains(i as usize) {
                                let w = choose|w: int| 0 <= w < done.len() + 1 && done.push(slot)[w] == i as usize;
                                assert(w < done.len());
                            }
                        }
                    } else {
                        assert(done.push(slot)[done.len() as int] == slot);
                    }
                }
            }
            k = k + 1;
        }
        assert(slots@.take(k as int) =~= slots@);
    }

    /// Gives the occupied slots, in slot order, the faces in `draws`, one each;
    /// empty slots stay empty.
    pub fn reroll_with(&mut self, draws: &Vec<u32>)
        requires
            old(self).wf(),
            draws@.len() == occupied(old(self)@),
            forall|k: int| 0 <= k < draws@.len() ==> valid_face(#[trigger] draws@[k]),
        ensures
            final(self).wf(),
            forall|i: int|
                0 <= i < SLOTS ==> #[trigger] final(self)@[i] == if old(self)@[i] is Some {
                    Some(draws@[occupied_in(old(self)@, i) as int])
                } else {
                    None
                },
    {
        let mut i: usize = 0;
        let mut k: usize = 0;
        while i < SLOTS
            invariant
                old(self).wf(),
                self.wf(),
                i <= SLOTS,
                k == occupied_in(old(self)@, i as int),
                k <= i,
                draws@.len() == occupied(old(self)@),
                forall|j: int| 0 <= j < draws@.len() ==> valid_face(#[trigger] draws@[j]),
                forall|j: int| i <= j < SLOTS ==> #[trigger] self@[j] == old(self)@[j],
                forall|j: int|
                    0 <= j < i ==> #[trigger] self@[j] == if old(self)@[j] is Some {
                        Some(draws@[occupied_in(old(self)@, j) as int])
                    } else {
                        None
                    },
            decreases SLOTS - i,
        {
            proof {
                lemma_occupied_grows(old(self)@, i as int + 1, SLOTS as int);
            }
            if self.slots[i].is_some() {
                assert(occupied_in(old(self)@, i as int + 1) == k + 1);
                self.slots[i] = Some(draws[k]);
                k = k + 1;
            } else {
                assert(occupied_in(old(self)@, i as int + 1) == k);
            }
            i = i + 1;
        }
    }

    /// Gives each occupied slot a new random face; empty slots stay empty.
    pub fn reroll_occupied(&mut self)
        requires
            old(self).wf(),
        ensures
            final(self).wf(),
            forall|i: int| 0 <= i < SLOTS ==> (#[trigger] final(self)@[i] is Some <==> old(self)@[i] is Some),
    {
        let draws = roll_dice(self.occupied_count());
        self.reroll_with(&draws);
    }

    /// The face in `slot`, or `None` where it is empty.
    pub fn face(&self, slot: usize) -> (r: Option<u32>)
        requires
            self.wf(),
            slot < SLOTS,
        ensures
            r == self@[slot as int],
    {
        self.slots[slot]
    }
}

} // verus!
