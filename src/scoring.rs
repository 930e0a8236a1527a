//! Every scoring selection that the occupied dice of a throw offer.

use vstd::prelude::*;
use crate::dice::{DiceSet, SLOTS, occupied, occupied_in, valid_face, valid_slots};

verus! {

/// The pattern that a scoring selection matches.
#[derive(Clone, Copy, Debug, PartialEq, Eq, Structural)]
pub enum ScoreType {
    OfAKind,
    Ones,
    Fives,
    InARow,
}

impl ScoreType {
    /// The label shown beside a selection of this pattern.
    pub fn label(&self) -> (r: &'static str)
        ensures
            *self == ScoreType::OfAKind ==> r@ == "of a kind"@,
            *self == ScoreType::Ones ==> r@ == "ones"@,
            *self == ScoreType::Fives ==> r@ == "fives"@,
            *self == ScoreType::InARow ==> r@ == "in a row"@,
    {
        match self {
            ScoreType::OfAKind => "of a kind",
            ScoreType::Ones => "ones",
            ScoreType::Fives => "fives",
            ScoreType::InARow => "in a row",
        }
    }
}

/// A selection of dice slots, the points it is worth and its pattern.
pub struct ScoringOption {
    pub indexes: Vec<usize>,
    pub score: u32,
    pub stype: ScoreType,
}

/// What a scoring selection is, as mathematical values.
pub struct OptionView {
    pub slots: Seq<usize>,
    pub score: nat,
    pub kind: ScoreType,
}

impl View for ScoringOption {
    type V = OptionView;

    open spec fn view(&self) -> OptionView {
        OptionView { slots: self.indexes@, score: self.score as nat, kind: self.stype }
    }
}

pub open spec fn views(v: Seq<ScoringOption>) -> Seq<OptionView> {
    v.map_values(|o: ScoringOption| o@)
}

/// Slots among the first `n` that show `face`, in slot order.
pub open spec fn slots_showing_in(s: Seq<Option<u32>>, face: u32, n: int) -> Seq<usize>
    decreases n,
{
    if n <= 0 {
        Seq::empty()
    } else {
        let prev = slots_showing_in(s, face, n - 1);
        if s[n - 1] == Some(face) {
            prev.push((n - 1) as usize)
        } else {
            prev
        }
    }
}

/// Slots that show `face`, in slot order.
pub open spec fn slots_showing(s: Seq<Option<u32>>, face: u32) -> Seq<usize> {
    slots_showing_in(s, face, SLOTS as int)
}

/// Whether some slot shows `face`.
pub open spec fn shows(s: Seq<Option<u32>>, face: u32) -> bool {
    slots_showing(s, face).len() > 0
}

/// The first slot that shows `face`.
pub open spec fn first_showing(s: Seq<Option<u32>>, face: u32) -> usize {
    slots_showing(s, face)[0]
}

/// One selection for each `n` from 1 to the number of `slots`: the first `n`
/// of them, worth `points * n`.
pub open spec fn run_options(slots: Seq<usize>, points: nat, kind: ScoreType) -> Seq<OptionView> {
    Seq::new(
        slots.len(),
        |j: int| OptionView { slots: slots.take(j + 1), score: points * (j + 1) as nat, kind },
    )
}

/// Points of three of a kind showing `face`.
pub open spec fn face_base(face: u32) -> nat {
    if face == 1 {
        1000
    } else {
        (face * 100) as nat
    }
}

/// Two to the power `k`.
pub open spec fn doubling(k: nat) -> nat
    decreases k,
{
    if k == 0 {
        1
    } else {
        2 * doubling((k - 1) as nat)
    }
}

/// Points of `n` of a kind (`n >= 3`) showing `face`: each die beyond three
/// doubles the points of three.
pub open spec fn kind_score(face: u32, n: nat) -> nat {
    face_base(face) * doubling((n - 3) as nat)
}

/// One selection for each `n` from 3 to the number of `slots`, all showing `face`:
/// the first `n` of them, worth `kind_score(face, n)`.
pub open spec fn kind_options(slots: Seq<usize>, face: u32) -> Seq<OptionView> {
    if slots.len() < 3 {
        Seq::empty()
    } else {
        Seq::new(
            (slots.len() - 2) as nat,
            |j: int|
                OptionView {
                    slots: slots.take(j + 3),
                    score: kind_score(face, (j + 3) as nat),
                    kind: ScoreType::OfAKind,
                },
        )
    }
}

/// The straights: where 2, 3, 4 and 5 all show, 1 to 5 (500 points) if a 1
/// shows, 2 to 6 (750) if a 6 shows, and 1 to 6 (1500) if both show. Each
/// takes the first slot that shows each of its faces.
pub open spec fn straight_options(s: Seq<Option<u32>>) -> Seq<OptionView> {
    if shows(s, 2) && shows(s, 3) && shows(s, 4) && shows(s, 5) {
        let hinge = seq![
            first_showing(s, 2),
            first_showing(s, 3),
            first_showing(s, 4),
            first_showing(s, 5),
        ];
        let low = OptionView {
            slots: hinge.push(first_showing(s, 1)),
            score: 500,
            kind: ScoreType::InARow,
        };
        let high = OptionView {
            slots: hinge.push(first_showing(s, 6)),
            score: 750,
            kind: ScoreType::InARow,
        };
        let full = OptionView {
            slots: hinge.push(first_showing(s, 1)).push(first_showing(s, 6)),
            score: 1500,
            kind: ScoreType::InARow,
        };
        (if shows(s, 1) {
            seq![low]
        } else {
            Seq::empty()
        }) + (if shows(s, 6) {
            seq![high]
        } else {
            Seq::empty()
        }) + (if shows(s, 1) && shows(s, 6) {
            seq![full]
        } else {
            Seq::empty()
        })
    } else {
        Seq::empty()
    }
}

/// Every scoring selection of a throw, in this order: runs of 1s, runs of 5s,
/// of-a-kind selections by ascending face (5 excluded), straights.
pub open spec fn all_options(s: Seq<Option<u32>>) -> Seq<OptionView> {
    run_options(slots_showing(s, 1), 100, ScoreType::Ones)
        + run_options(slots_showing(s, 5), 50, ScoreType::Fives)
        + kind_options(slots_showing(s, 1), 1)
        + kind_options(slots_showing(s, 2), 2)
        + kind_options(slots_showing(s, 3), 3)
        + kind_options(slots_showing(s, 4), 4)
        + kind_options(slots_showing(s, 6), 6)
        + straight_options(s)
}

proof fn lemma_slots_showing_bounds(s: Seq<Option<u32>>, face: u32, n: int)
    requires
        0 <= n <= s.len(),
        n <= SLOTS,
    ensures
        slots_showing_in(s, face, n).len() <= n,
        forall|j: int|
            0 <= j < slots_showing_in(s, face, n).len() ==> #[trigger] slots_showing_in(
                s,
                face,
                n,
            )[j] < n && s[slots_showing_in(s, face, n)[j] as int] == Some(face),
        forall|j: int, k: int|
            0 <= j < k < slots_showing_in(s, face, n).len() ==> #[trigger] slots_showing_in(
                s,
                face,
                n,
            )[j] < #[trigger] slots_showing_in(s, face, n)[k],
    decreases n,
{
    if n > 0 {
        lemma_slots_showing_bounds(s, face, n - 1);
        let prev = slots_showing_in(s, face, n - 1);
        let cur = slots_showing_in(s, face, n);
        if s[n - 1] == Some(face) {
            assert(cur == prev.push((n - 1) as usize));
            assert forall|j: int| 0 <= j < cur.len() implies #[trigger] cur[j] < n && s[cur[j] as int]
                == Some(face) by {
                if j < prev.len() {
                    assert(cur[j] == prev[j]);
                }
            }
            assert forall|j: int, k: int| 0 <= j < k < cur.len() implies #[trigger] cur[j]
                < #[trigger] cur[k] by {
                assert(cur[j] == prev[j]);
                if k < prev.len() {
                    assert(cur[k] == prev[k]);
                }
            }
        } else {
            assert(cur == prev);
        }
    }
}

/// The slots of the dice set that show `face`, in slot order.
fn showing(d: &DiceSet, face: u32) -> (r: Vec<usize>)
    requires
        d.wf(),
    ensures
        r@ == slots_showing(d@, face),
        r@.len() <= SLOTS,
{
    let mut r: Vec<usize> = Vec::new();
    let mut i: usize = 0;
    while i < SLOTS
        invariant
            d.wf(),
            i <= SLOTS,
            r@ == slots_showing_in(d@, face, i as int),
        decreases SLOTS - i,
    {
        if d.face(i) == Some(face) {
            r.push(i);
        }
        i = i + 1;
    }
    proof {
        lemma_slots_showing_bounds(d@, face, SLOTS as int);
    }
    r
}

/// The first `n` slots of `v`.
fn prefix(v: &Vec<usize>, n: usize) -> (r: Vec<usize>)
    requires
        n <= v@.len(),
    ensures
        r@ == v@.take(n as int),
{
    let mut r: Vec<usize> = Vec::new();
    let mut i: usize = 0;
    while i < n
        invariant
            n <= v@.len(),
            i <= n,
            r@ == v@.take(i as int),
        decreases n - i,
    {
        r.push(v[i]);
        i = i + 1;
        assert(r@ =~= v@.take(i as int));
    }
    r
}

/// One selection for each `n` from 1 to the number of `slots`: the first `n`
/// of them, worth `points * n`.
fn runs(slots: &Vec<usize>, points: u32, kind: ScoreType) -> (r: Vec<ScoringOption>)
    requires
        slots@.len() <= SLOTS,
        points <= 100,
    ensures
        views(r@) == run_options(slots@, points as nat, kind),
{
    let mut r: Vec<ScoringOption> = Vec::new();
    let mut n: usize = 0;
    while n < slots.len()
        invariant
            slots@.len() <= SLOTS,
            points <= 100,
            n <= slots@.len(),
            views(r@) == run_options(slots@.take(n as int), points as nat, kind),
        decreases slots@.len() - n,
    {
        assert(points * (n as u32 + 1) <= 600) by (nonlinear_arith)
            requires
                points <= 100,
                n < 6,
        ;
        let option = ScoringOption {
            indexes: prefix(slots, n + 1),
            score: points * (n as u32 + 1),
            stype: kind,
        };
        let ghost before = r@;
        r.push(option);
        n = n + 1;
        proof {
            assert(r@ == before.push(option));
            assert(views(r@) =~= views(before).push(option@));
            assert(slots@.take(n as int).take(n as int) =~= slots@.take(n as int));
            assert forall|j: int| 0 <= j < n - 1 implies #[trigger] slots@.take(n as int).take(j + 1)
                =~= slots@.take(n - 1).take(j + 1) by {}
            assert(views(r@) =~= run_options(slots@.take(n as int), points as nat, kind));
        }
    }
    assert(slots@.take(n as int) =~= slots@);
    r
}

proof fn lemma_doubling_bound(k: nat)
    requires
        k <= 3,
    ensures
        1 <= doubling(k) <= 8,
        doubling(k + 1) == 2 * doubling(k),
{
    reveal_with_fuel(doubling, 5);
}

/// One selection for each `n` from 3 to the number of `slots`, all showing
/// `face`: the first `n` of them, worth `kind_score(face, n)`.
fn kinds(slots: &Vec<usize>, face: u32) -> (r: Vec<ScoringOption>)
    requires
        slots@.len() <= SLOTS,
        1 <= face <= 6,
    ensures
        views(r@) == kind_options(slots@, face),
{
    let mut r: Vec<ScoringOption> = Vec::new();
    if slots.len() < 3 {
        return r;
    }
    let mut score: u32 = if face == 1 {
        1000
    } else {
        face * 100
    };
    let mut n: usize = 3;
    proof {
        assert(doubling(0) == 1);
        assert(kind_score(face, 3) == face_base(face) * doubling(0));
        assert(kind_score(face, 3) == face_base(face)) by (nonlinear_arith)
            requires
                kind_score(face, 3) == face_base(face) * doubling(0),
                doubling(0) == 1,
        ;
    }
    while n <= slots.len()
        invariant
            3 <= slots@.len() <= SLOTS,
            1 <= face <= 6,
            3 <= n <= slots@.len() + 1,
            n <= slots@.len() ==> score == kind_score(face, n as nat),
            views(r@).len() == n - 3,
            forall|j: int| 0 <= j < n - 3 ==> #[trigger] views(r@)[j] == kind_options(slots@, face)[j],
        decreases slots@.len() + 1 - n,
    {
        let option = ScoringOption {
            indexes: prefix(slots, n),
            score: score,
            stype: ScoreType::OfAKind,
        };
        let ghost before = r@;
        r.push(option);
        proof {
            assert(r@ == before.push(option));
            assert(views(r@) =~= views(before).push(option@));
            lemma_doubling_bound((n - 3) as nat);
            assert(kind_score(face, (n + 1) as nat) == 2 * kind_score(face, n as nat)) by (nonlinear_arith)
                requires
                    doubling((n + 1 - 3) as nat) == 2 * doubling((n - 3) as nat),
                    kind_score(face, (n + 1) as nat) == face_base(face) * doubling((n + 1 - 3) as nat),
                    kind_score(face, n as nat) == face_base(face) * doubling((n - 3) as nat),
            ;
            assert(face_base(face) <= 1000);
            assert(kind_score(face, n as nat) <= 8000) by (nonlinear_arith)
                requires
                    kind_score(face, n as nat) == face_base(face) * doubling((n - 3) as nat),
                    face_base(face) <= 1000,
                    doubling((n - 3) as nat) <= 8,
            ;
        }
        n = n + 1;
        if n <= slots.len() {
            score = score * 2;
        }
    }
    assert(views(r@) =~= kind_options(slots@, face));
    r
}

/// The straights of the dice set.
fn straights(d: &DiceSet) -> (r: Vec<ScoringOption>)
    requires
        d.wf(),
    ensures
        views(r@) == straight_options(d@),
{
    let mut r: Vec<ScoringOption> = Vec::new();
    let twos = showing(d, 2);
    let threes = showing(d, 3);
    let fours = showing(d, 4);
    let fives = showing(d, 5);
    if twos.len() == 0 || threes.len() == 0 || fours.len() == 0 || fives.len() == 0 {
        assert(views(r@) =~= straight_options(d@));
        return r;
    }
    let ones = showing(d, 1);
    let sixes = showing(d, 6);
    if ones.len() > 0 {
        r.push(
            ScoringOption {
                indexes: vec![twos[0], threes[0], fours[0], fives[0], ones[0]],
                score: 500,
                stype: ScoreType::InARow,
            },
        );
    }
    if sixes.len() > 0 {
        r.push(
            ScoringOption {
                indexes: vec![twos[0], threes[0], fours[0], fives[0], sixes[0]],
                score: 750,
                stype: ScoreType::InARow,
            },
        );
    }
    if ones.len() > 0 && sixes.len() > 0 {
        r.push(
            ScoringOption {
                indexes: vec![twos[0], threes[0], fours[0], fives[0], ones[0], sixes[0]],
                score: 1500,
                stype: ScoreType::InARow,
            },
        );
    }
    proof {
        let s = d@;
        let hinge = seq![
            first_showing(s, 2),
            first_showing(s, 3),
            first_showing(s, 4),
            first_showing(s, 5),
        ];
        assert(hinge.push(first_showing(s, 1)) =~= seq![
            first_showing(s, 2),
            first_showing(s, 3),
            first_showing(s, 4),
            first_showing(s, 5),
            first_showing(s, 1),
        ]);
        assert(hinge.push(first_showing(s, 6)) =~= seq![
            first_showing(s, 2),
            first_showing(s, 3),
            first_showing(s, 4),
            first_showing(s, 5),
            first_showing(s, 6),
        ]);
        assert(hinge.push(first_showing(s, 1)).push(first_showing(s, 6)) =~= seq![
            first_showing(s, 2),
            first_showing(s, 3),
            first_showing(s, 4),
            first_showing(s, 5),
            first_showing(s, 1),
            first_showing(s, 6),
        ]);
        assert(views(r@) =~= straight_options(d@));
    }
    r
}

proof fn lemma_views_append(a: Seq<ScoringOption>, b: Seq<ScoringOption>)
    ensures
        views(a + b) == views(a) + views(b),
{
    assert(views(a + b) =~= views(a) + views(b));
}

impl DiceSet {
    /// Every scoring selection that the occupied dice offer: runs of 1s, runs
    /// of 5s, of-a-kind selections by ascending face (5 excluded), straights.
    /// An empty list means the throw is a bust.
    pub fn scoring_options(&self) -> (r: Vec<ScoringOption>)
        requires
            self.wf(),
        ensures
            views(r@) == all_options(self@),
    {
        let ones = showing(self, 1);
        let fives = showing(self, 5);
        let mut r = runs(&ones, 100, ScoreType::Ones);
        let mut more = runs(&fives, 50, ScoreType::Fives);
        proof { lemma_views_append(r@, more@); }
        r.append(&mut more);
        let mut more = kinds(&ones, 1);
        proof { lemma_views_append(r@, more@); }
        r.append(&mut more);
        let mut more = kinds(&showing(self, 2), 2);
        proof { lemma_views_append(r@, more@); }
        r.append(&mut more);
        let mut more = kinds(&showing(self, 3), 3);
        proof { lemma_views_append(r@, more@); }
        r.append(&mut more);
        let mut more = kinds(&showing(self, 4), 4);
        proof { lemma_views_append(r@, more@); }
        r.append(&mut more);
        let mut more = kinds(&showing(self, 6), 6);
        proof { lemma_views_append(r@, more@); }
        r.append(&mut more);
        let mut more = straights(self);
        proof { lemma_views_append(r@, more@); }
        r.append(&mut more);
        r
    }
}

/// A selection that can be taken from the slots `s`: at least one slot, each
/// occupied and named once, and a positive score.
pub open spec fn selectable(o: OptionView, s: Seq<Option<u32>>) -> bool {
    &&& o.slots.len() > 0
    &&& o.score > 0
    &&& forall|k: int| 0 <= k < o.slots.len() ==> #[trigger] o.slots[k] < SLOTS
    &&& forall|k: int| 0 <= k < o.slots.len() ==> s[#[trigger] o.slots[k] as int] is Some
    &&& forall|j: int, k: int| 0 <= j < k < o.slots.len() ==> #[trigger] o.slots[j] != #[trigger] o.slots[k]
}

/// No selection in `opts` has pattern `kind`.
pub open spec fn lacks_kind(opts: Seq<OptionView>, kind: ScoreType) -> bool {
    forall|i: int| 0 <= i < opts.len() ==> #[trigger] opts[i].kind != kind
}

proof fn lemma_prefixes_selectable(s: Seq<Option<u32>>, face: u32, n: int)
    requires
        valid_slots(s),
        1 <= n <= slots_showing(s, face).len(),
    ensures
        forall|k: int| 0 <= k < slots_showing(s, face).take(n).len() ==> #[trigger] slots_showing(s, face).take(n)[k] < SLOTS,
        forall|k: int| 0 <= k < slots_showing(s, face).take(n).len() ==> s[#[trigger] slots_showing(s, face).take(n)[k] as int] is Some,
        forall|j: int, k: int| 0 <= j < k < slots_showing(s, face).take(n).len() ==> #[trigger] slots_showing(s, face).take(n)[j] != #[trigger] slots_showing(s, face).take(n)[k],
{
    lemma_slots_showing_bounds(s, face, SLOTS as int);
    let t = slots_showing(s, face);
    assert forall|k: int| 0 <= k < t.take(n).len() implies s[#[trigger] t.take(n)[k] as int] is Some by {
        assert(t.take(n)[k] == t[k]);
    }
    assert forall|j: int, k: int| 0 <= j < k < t.take(n).len() implies #[trigger] t.take(n)[j] != #[trigger] t.take(n)[k] by {
        assert(t.take(n)[j] == t[j]);
        assert(t.take(n)[k] == t[k]);
    }
}

proof fn lemma_runs_selectable(s: Seq<Option<u32>>, face: u32, points: nat, kind: ScoreType)
    requires
        valid_slots(s),
        points > 0,
    ensures
        forall|i: int| 0 <= i < run_options(slots_showing(s, face), points, kind).len() ==> selectable(
            #[trigger] run_options(slots_showing(s, face), points, kind)[i],
            s,
        ),
{
    let opts = run_options(slots_showing(s, face), points, kind);
    assert forall|i: int| 0 <= i < opts.len() implies selectable(#[trigger] opts[i], s) by {
        lemma_prefixes_selectable(s, face, i + 1);
        assert(points * (i + 1) as nat > 0) by (nonlinear_arith)
            requires
                points > 0,
                i >= 0,
        ;
    }
}

proof fn lemma_kinds_selectable(s: Seq<Option<u32>>, face: u32)
    requires
        valid_slots(s),
        1 <= face <= 6,
    ensures
        forall|i: int| 0 <= i < kind_options(slots_showing(s, face), face).len() ==> selectable(
            #[trigger] kind_options(slots_showing(s, face), face)[i],
            s,
        ),
{
    lemma_slots_showing_bounds(s, face, SLOTS as int);
    let opts = kind_options(slots_showing(s, face), face);
    assert forall|i: int| 0 <= i < opts.len() implies selectable(#[trigger] opts[i], s) by {
        lemma_prefixes_selectable(s, face, i + 3);
        lemma_doubling_bound(i as nat);
        assert(face_base(face) * doubling(i as nat) > 0) by (nonlinear_arith)
            requires
                face_base(face) > 0,
                doubling(i as nat) >= 1,
        ;
    }
}

proof fn lemma_straights_selectable(s: Seq<Option<u32>>)
    requires
        valid_slots(s),
    ensures
        forall|i: int| 0 <= i < straight_options(s).len() ==> selectable(
            #[trigger] straight_options(s)[i],
            s,
        ),
{
    lemma_slots_showing_bounds(s, 1, SLOTS as int);
    lemma_slots_showing_bounds(s, 2, SLOTS as int);
    lemma_slots_showing_bounds(s, 3, SLOTS as int);
    lemma_slots_showing_bounds(s, 4, SLOTS as int);
    lemma_slots_showing_bounds(s, 5, SLOTS as int);
    lemma_slots_showing_bounds(s, 6, SLOTS as int);
    assert(shows(s, 1) ==> s[first_showing(s, 1) as int] == Some(1u32) && first_showing(s, 1) < SLOTS);
    assert(shows(s, 2) ==> s[first_showing(s, 2) as int] == Some(2u32) && first_showing(s, 2) < SLOTS);
    assert(shows(s, 3) ==> s[first_showing(s, 3) as int] == Some(3u32) && first_showing(s, 3) < SLOTS);
    assert(shows(s, 4) ==> s[first_showing(s, 4) as int] == Some(4u32) && first_showing(s, 4) < SLOTS);
    assert(shows(s, 5) ==> s[first_showing(s, 5) as int] == Some(5u32) && first_showing(s, 5) < SLOTS);
    assert(shows(s, 6) ==> s[first_showing(s, 6) as int] == Some(6u32) && first_showing(s, 6) < SLOTS);
}

/// Every selection offered for a valid throw names at least one slot, only
/// occupied slots, no slot twice, and is worth a positive number of points.
pub proof fn lemma_options_selectable(s: Seq<Option<u32>>)
    requires
        valid_slots(s),
    ensures
        forall|i: int| 0 <= i < all_options(s).len() ==> selectable(#[trigger] all_options(s)[i], s),
{
    lemma_runs_selectable(s, 1, 100, ScoreType::Ones);
    lemma_runs_selectable(s, 5, 50, ScoreType::Fives);
    lemma_kinds_selectable(s, 1);
    lemma_kinds_selectable(s, 2);
    lemma_kinds_selectable(s, 3);
    lemma_kinds_selectable(s, 4);
    lemma_kinds_selectable(s, 6);
    lemma_straights_selectable(s);
}

/// Number of dice among the first `n` slots that show each face.
pub open spec fn face_total_in(s: Seq<Option<u32>>, n: int) -> nat {
    slots_showing_in(s, 1, n).len() + slots_showing_in(s, 2, n).len() + slots_showing_in(s, 3, n).len()
        + slots_showing_in(s, 4, n).len() + slots_showing_in(s, 5, n).len() + slots_showing_in(
        s,
        6,
        n,
    ).len()
}

proof fn lemma_face_total(s: Seq<Option<u32>>, n: int)
    requires
        valid_slots(s),
        0 <= n <= SLOTS,
    ensures
        face_total_in(s, n) == occupied_in(s, n),
    decreases n,
{
    if n > 0 {
        lemma_face_total(s, n - 1);
        assert(s[n - 1] is Some ==> valid_face(s[n - 1]->0));
    }
}

/// Where a pattern cannot be made from the dice, it is not offered: with fewer
/// than five occupied dice no straight, with fewer than three no of-a-kind
/// selection, with no die showing 1 no run of 1s, with no die showing 5 no run
/// of 5s, and with no dice nothing at all.
pub proof fn lemma_absent_options(s: Seq<Option<u32>>)
    requires
        valid_slots(s),
    ensures
        occupied(s) < 5 ==> lacks_kind(all_options(s), ScoreType::InARow),
        occupied(s) < 3 ==> lacks_kind(all_options(s), ScoreType::OfAKind),
        !shows(s, 1) ==> lacks_kind(all_options(s), ScoreType::Ones),
        !shows(s, 5) ==> lacks_kind(all_options(s), ScoreType::Fives),
        occupied(s) == 0 ==> all_options(s).len() == 0,
{
    lemma_face_total(s, SLOTS as int);
    let ones = run_options(slots_showing(s, 1), 100, ScoreType::Ones);
    let fives = run_options(slots_showing(s, 5), 50, ScoreType::Fives);
    let kinds = kind_options(slots_showing(s, 1), 1) + kind_options(slots_showing(s, 2), 2)
        + kind_options(slots_showing(s, 3), 3) + kind_options(slots_showing(s, 4), 4)
        + kind_options(slots_showing(s, 6), 6);
    let straights = straight_options(s);
    assert(all_options(s) =~= ones + fives + kinds + straights);
    assert(lacks_kind(ones, ScoreType::InARow) && lacks_kind(ones, ScoreType::OfAKind) && lacks_kind(ones, ScoreType::Fives));
    assert(lacks_kind(fives, ScoreType::InARow) && lacks_kind(fives, ScoreType::OfAKind) && lacks_kind(fives, ScoreType::Ones));
    assert(lacks_kind(kinds, ScoreType::InARow) && lacks_kind(kinds, ScoreType::Ones) && lacks_kind(kinds, ScoreType::Fives));
    assert(lacks_kind(straights, ScoreType::OfAKind) && lacks_kind(straights, ScoreType::Ones) && lacks_kind(straights, ScoreType::Fives));
    if occupied(s) < 5 {
        assert(straights.len() == 0);
        assert(all_options(s) =~= ones + fives + kinds);
    }
    if occupied(s) < 3 {
        assert(kinds.len() == 0);
        assert(all_options(s) =~= ones + fives + straights);
    }
    if !shows(s, 1) {
        assert(ones.len() == 0);
        assert(all_options(s) =~= fives + kinds + straights);
    }
    if !shows(s, 5) {
        assert(fives.len() == 0);
        assert(all_options(s) =~= ones + kinds + straights);
    }
}

} // verus!
