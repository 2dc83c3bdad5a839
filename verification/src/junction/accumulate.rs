//! What one junction is: the contacts that share a centerline intersection,
//! their directional arm claims, and the intersection of their hit bands.
//!
//! Centers are kept doubled (`min + max`) so they are exact integers.

use vstd::prelude::*;

use crate::geometry::LogicalRect;
use crate::ids::SceneLayerKey;
use crate::junction::splitters::{is_contact, IndexedSplitter, SplitterJunctionCandidate};
use crate::records::splitter::{SplitterJunctionDirection, SplitterJunctionId, SplitterSceneId};
use crate::sorting::SortKey;

verus! {

/// A junction's root, layer, and doubled centerline intersection.
#[derive(Debug, Clone, Copy, PartialEq, Eq, Structural)]
pub struct JunctionKey {
    /// Owning root.
    pub root: u64,
    /// Presentation layer.
    pub layer: u64,
    /// Doubled center x: the north-south splitter's left plus right edge.
    pub cx2: i64,
    /// Doubled center y: the west-east splitter's top plus bottom edge.
    pub cy2: i64,
}

/// Lexicographic order of junction keys.
pub open spec fn key_le(a: JunctionKey, b: JunctionKey) -> bool {
    ||| a.root < b.root
    ||| a.root == b.root && a.layer < b.layer
    ||| a.root == b.root && a.layer == b.layer && a.cx2 < b.cx2
    ||| a.root == b.root && a.layer == b.layer && a.cx2 == b.cx2 && a.cy2 <= b.cy2
}

/// Decides the junction-key order.
pub fn key_le_exec(a: JunctionKey, b: JunctionKey) -> (r: bool)
    ensures
        r == key_le(a, b),
{
    a.root < b.root || (a.root == b.root && (a.layer < b.layer || (a.layer == b.layer && (a.cx2
        < b.cx2 || (a.cx2 == b.cx2 && a.cy2 <= b.cy2)))))
}

/// One structural contact with its junction key.
#[derive(Debug, Clone, Copy, PartialEq, Eq, Structural)]
pub struct KeyedContact {
    /// Junction key of the contact.
    pub key: JunctionKey,
    /// North-south splitter index.
    pub ns: usize,
    /// West-east splitter index.
    pub we: usize,
}

impl SortKey for KeyedContact {
    open spec fn sort_le(self, other: Self) -> bool {
        key_le(self.key, other.key)
    }

    proof fn lemma_sort_order(a: Self, b: Self, c: Self) {
    }

    fn sort_le_exec(&self, other: &Self) -> (r: bool) {
        key_le_exec(self.key, other.key)
    }
}

/// The junction key of the contact of splitters `i` and `j`.
pub open spec fn contact_key(s: Seq<IndexedSplitter>, i: int, j: int) -> JunctionKey {
    JunctionKey {
        root: s[i].id.root.0,
        layer: s[i].layer.0,
        cx2: (s[i].draw.x + s[i].draw.right()) as i64,
        cy2: (s[j].draw.y + s[j].draw.bottom()) as i64,
    }
}

/// The contacts of one junction.
pub open spec fn members(s: Seq<IndexedSplitter>, k: JunctionKey) -> Set<(int, int)> {
    Set::new(|p: (int, int)| is_contact(s, p.0, p.1) && contact_key(s, p.0, p.1) == k)
}

/// Whether contact `p` claims the arm in direction `d`: its splitter extends
/// past the center in that direction.
pub open spec fn claims(
    s: Seq<IndexedSplitter>,
    k: JunctionKey,
    d: SplitterJunctionDirection,
    p: (int, int),
) -> bool {
    match d {
        SplitterJunctionDirection::North => 2 * s[p.0].draw.y < k.cy2,
        SplitterJunctionDirection::South => 2 * s[p.0].draw.bottom() > k.cy2,
        SplitterJunctionDirection::West => 2 * s[p.1].draw.x < k.cx2,
        SplitterJunctionDirection::East => 2 * s[p.1].draw.right() > k.cx2,
    }
}

/// The splitter a contact offers for direction `d`.
pub open spec fn claimant(
    s: Seq<IndexedSplitter>,
    d: SplitterJunctionDirection,
    p: (int, int),
) -> SplitterSceneId {
    match d {
        SplitterJunctionDirection::North | SplitterJunctionDirection::South => s[p.0].id,
        _ => s[p.1].id,
    }
}

/// What the contacts of a junction say about one arm.
#[derive(Debug, Clone, Copy, PartialEq, Eq, Structural)]
pub enum ArmOutcome {
    /// No contact claims the arm.
    Vacant,
    /// Every claim names this splitter.
    Held(SplitterSceneId),
    /// Two claims name different splitters.
    Contested,
}

/// Two contacts of `m` claim direction `d` for different splitters.
pub open spec fn contested(
    s: Seq<IndexedSplitter>,
    k: JunctionKey,
    d: SplitterJunctionDirection,
    m: Set<(int, int)>,
) -> bool {
    exists|p: (int, int), q: (int, int)|
        m.contains(p) && m.contains(q) && claims(s, k, d, p) && claims(s, k, d, q) && claimant(
            s,
            d,
            p,
        ) != claimant(s, d, q)
}

/// Some contact of `m` claims direction `d`.
pub open spec fn claimed(
    s: Seq<IndexedSplitter>,
    k: JunctionKey,
    d: SplitterJunctionDirection,
    m: Set<(int, int)>,
) -> bool {
    exists|p: (int, int)| m.contains(p) && claims(s, k, d, p)
}

/// The outcome of direction `d` among the contacts `m`.
pub open spec fn arm_over(
    s: Seq<IndexedSplitter>,
    k: JunctionKey,
    d: SplitterJunctionDirection,
    m: Set<(int, int)>,
) -> ArmOutcome {
    if contested(s, k, d, m) {
        ArmOutcome::Contested
    } else if claimed(s, k, d, m) {
        ArmOutcome::Held(claimant(s, d, choose|p: (int, int)| m.contains(p) && claims(s, k, d, p)))
    } else {
        ArmOutcome::Vacant
    }
}

/// The splitter holding an arm, if one does.
pub open spec fn held(o: ArmOutcome) -> Option<SplitterSceneId> {
    match o {
        ArmOutcome::Held(id) => Some(id),
        _ => None,
    }
}

/// `v` is the greatest left hit edge of the north-south splitters of `m`.
pub open spec fn x_lo_is(s: Seq<IndexedSplitter>, m: Set<(int, int)>, v: int) -> bool {
    &&& exists|p: (int, int)| m.contains(p) && s[p.0].hit.x == v
    &&& forall|p: (int, int)| m.contains(p) ==> s[p.0].hit.x <= v
}

/// `v` is the least right hit edge of the north-south splitters of `m`.
pub open spec fn x_hi_is(s: Seq<IndexedSplitter>, m: Set<(int, int)>, v: int) -> bool {
    &&& exists|p: (int, int)| m.contains(p) && s[p.0].hit.right() == v
    &&& forall|p: (int, int)| m.contains(p) ==> s[p.0].hit.right() >= v
}

/// `v` is the greatest top hit edge of the west-east splitters of `m`.
pub open spec fn y_lo_is(s: Seq<IndexedSplitter>, m: Set<(int, int)>, v: int) -> bool {
    &&& exists|p: (int, int)| m.contains(p) && s[p.1].hit.y == v
    &&& forall|p: (int, int)| m.contains(p) ==> s[p.1].hit.y <= v
}

/// `v` is the least bottom hit edge of the west-east splitters of `m`.
pub open spec fn y_hi_is(s: Seq<IndexedSplitter>, m: Set<(int, int)>, v: int) -> bool {
    &&& exists|p: (int, int)| m.contains(p) && s[p.1].hit.bottom() == v
    &&& forall|p: (int, int)| m.contains(p) ==> s[p.1].hit.bottom() >= v
}

/// The junction the contacts `m` at key `k` form, if it is unambiguous,
/// has at least three arms, and its hit bands intersect with positive area.
#[verifier::opaque]
pub open spec fn candidate_over(
    s: Seq<IndexedSplitter>,
    k: JunctionKey,
    m: Set<(int, int)>,
) -> Option<SplitterJunctionCandidate> {
    let north = arm_over(s, k, SplitterJunctionDirection::North, m);
    let east = arm_over(s, k, SplitterJunctionDirection::East, m);
    let south = arm_over(s, k, SplitterJunctionDirection::South, m);
    let west = arm_over(s, k, SplitterJunctionDirection::West, m);
    let id = SplitterJunctionId {
        north: held(north),
        east: held(east),
        south: held(south),
        west: held(west),
    };
    let x_lo = choose|v: int| x_lo_is(s, m, v);
    let x_hi = choose|v: int| x_hi_is(s, m, v);
    let y_lo = choose|v: int| y_lo_is(s, m, v);
    let y_hi = choose|v: int| y_hi_is(s, m, v);
    if north is Contested || east is Contested || south is Contested || west is Contested {
        None
    } else if id.arm_count_spec() < 3 {
        None
    } else if !(x_lo < x_hi && y_lo < y_hi) {
        None
    } else {
        Some(
            SplitterJunctionCandidate {
                id,
                hit: LogicalRect {
                    x: x_lo as i32,
                    y: y_lo as i32,
                    width: (x_hi - x_lo) as u32,
                    height: (y_hi - y_lo) as u32,
                },
                layer: SceneLayerKey(k.layer),
            },
        )
    }
}

/// The junction at key `k`, if its contacts form one.
pub open spec fn candidate_at(s: Seq<IndexedSplitter>, k: JunctionKey) -> Option<
    SplitterJunctionCandidate,
> {
    candidate_over(s, k, members(s, k))
}

/// The claims seen so far on one arm.
#[derive(Debug, Clone, Copy, PartialEq, Eq, Structural)]
pub struct ArmClaim {
    /// First claimant.
    pub splitter: Option<SplitterSceneId>,
    /// Whether a different splitter also claimed the arm.
    pub conflicting: bool,
}

/// An arm state agrees with an outcome.
pub open spec fn arm_state_is(a: ArmClaim, o: ArmOutcome) -> bool {
    match o {
        ArmOutcome::Contested => a.conflicting,
        ArmOutcome::Held(id) => !a.conflicting && a.splitter == Some(id),
        ArmOutcome::Vacant => !a.conflicting && a.splitter is None,
    }
}

impl ArmClaim {
    /// Records one claim of the arm by `splitter`.
    pub fn claim(&mut self, splitter: SplitterSceneId)
        ensures
            old(self).conflicting ==> final(self).conflicting,
            !old(self).conflicting && old(self).splitter is None ==> *final(self) == (ArmClaim {
                splitter: Some(splitter),
                conflicting: false,
            }),
            !old(self).conflicting && old(self).splitter == Some(splitter) ==> *final(self) == *old(
                self,
            ),
            !old(self).conflicting && old(self).splitter is Some && old(self).splitter != Some(
                splitter,
            ) ==> final(self).conflicting,
    {
        match self.splitter {
            None => {
                if !self.conflicting {
                    self.splitter = Some(splitter);
                }
            },
            Some(existing) => {
                if existing != splitter {
                    self.conflicting = true;
                }
            },
        }
    }
}

/// One claim step keeps an arm state in agreement with the outcome.
proof fn lemma_arm_step(
    s: Seq<IndexedSplitter>,
    k: JunctionKey,
    d: SplitterJunctionDirection,
    m: Set<(int, int)>,
    p: (int, int),
    a: ArmClaim,
    b: ArmClaim,
)
    requires
        arm_state_is(a, arm_over(s, k, d, m)),
        !claims(s, k, d, p) ==> b == a,
        claims(s, k, d, p) ==> {
            &&& a.conflicting ==> b.conflicting
            &&& !a.conflicting && a.splitter is None ==> b == (ArmClaim {
                splitter: Some(claimant(s, d, p)),
                conflicting: false,
            })
            &&& !a.conflicting && a.splitter == Some(claimant(s, d, p)) ==> b == a
            &&& !a.conflicting && a.splitter is Some && a.splitter != Some(claimant(s, d, p))
                ==> b.conflicting
        },
    ensures
        arm_state_is(b, arm_over(s, k, d, m.insert(p))),
{
    let m2 = m.insert(p);
    if contested(s, k, d, m) {
        let (p1, q1) = choose|p1: (int, int), q1: (int, int)|
            m.contains(p1) && m.contains(q1) && claims(s, k, d, p1) && claims(s, k, d, q1)
                && claimant(s, d, p1) != claimant(s, d, q1);
        assert(m2.contains(p1) && m2.contains(q1));
    } else if claimed(s, k, d, m) {
        let w = choose|w: (int, int)| m.contains(w) && claims(s, k, d, w);
        let id = claimant(s, d, w);
        assert(forall|q: (int, int)|
            m.contains(q) && claims(s, k, d, q) ==> claimant(s, d, q) == id);
        if claims(s, k, d, p) && claimant(s, d, p) != id {
            assert(m2.contains(p) && m2.contains(w));
            assert(contested(s, k, d, m2));
        } else {
            assert(m2.contains(w));
            assert(!contested(s, k, d, m2));
            let w2 = choose|w2: (int, int)| m2.contains(w2) && claims(s, k, d, w2);
            assert(claimant(s, d, w2) == id);
        }
    } else {
        if claims(s, k, d, p) {
            assert(m2.contains(p));
            assert(forall|q: (int, int)| m2.contains(q) && claims(s, k, d, q) ==> q == p);
            assert(!contested(s, k, d, m2));
            let w2 = choose|w2: (int, int)| m2.contains(w2) && claims(s, k, d, w2);
            assert(w2 == p);
        } else {
            assert(forall|q: (int, int)| m2.contains(q) ==> (m.contains(q) || q == p));
            assert(!claimed(s, k, d, m2));
            assert(!contested(s, k, d, m2));
        }
    }
}

/// A hit band agrees with the north-south splitters of `m`.
pub open spec fn x_band_is(s: Seq<IndexedSplitter>, m: Set<(int, int)>, b: Option<(i64, i64)>) -> bool {
    match b {
        None => forall|p: (int, int)| !m.contains(p),
        Some((lo, hi)) => x_lo_is(s, m, lo as int) && x_hi_is(s, m, hi as int),
    }
}

/// A hit band agrees with the west-east splitters of `m`.
pub open spec fn y_band_is(s: Seq<IndexedSplitter>, m: Set<(int, int)>, b: Option<(i64, i64)>) -> bool {
    match b {
        None => forall|p: (int, int)| !m.contains(p),
        Some((lo, hi)) => y_lo_is(s, m, lo as int) && y_hi_is(s, m, hi as int),
    }
}

/// What has been gathered about one junction from some of its contacts.
#[derive(Debug, Clone, Copy, PartialEq, Eq)]
pub struct JunctionAccumulator {
    /// Arm above the center.
    pub north: ArmClaim,
    /// Arm right of the center.
    pub east: ArmClaim,
    /// Arm below the center.
    pub south: ArmClaim,
    /// Arm left of the center.
    pub west: ArmClaim,
    /// Intersection of the north-south splitters' horizontal hit extents.
    pub x_band: Option<(i64, i64)>,
    /// Intersection of the west-east splitters' vertical hit extents.
    pub y_band: Option<(i64, i64)>,
}

/// An accumulator agrees with the contacts `m` of the junction at `k`.
pub open spec fn accumulator_is(
    acc: JunctionAccumulator,
    s: Seq<IndexedSplitter>,
    k: JunctionKey,
    m: Set<(int, int)>,
) -> bool {
    &&& arm_state_is(acc.north, arm_over(s, k, SplitterJunctionDirection::North, m))
    &&& arm_state_is(acc.east, arm_over(s, k, SplitterJunctionDirection::East, m))
    &&& arm_state_is(acc.south, arm_over(s, k, SplitterJunctionDirection::South, m))
    &&& arm_state_is(acc.west, arm_over(s, k, SplitterJunctionDirection::West, m))
    &&& x_band_is(s, m, acc.x_band)
    &&& y_band_is(s, m, acc.y_band)
}

fn intersect(band: Option<(i64, i64)>, lo: i64, hi: i64) -> (r: Option<(i64, i64)>)
    ensures
        band is None ==> r == Some((lo, hi)),
        band matches Some((a, b)) ==> r == Some(
            (if a >= lo { a } else { lo }, if b <= hi { b } else { hi }),
        ),
{
    match band {
        None => Some((lo, hi)),
        Some((a, b)) => Some((if a >= lo { a } else { lo }, if b <= hi { b } else { hi })),
    }
}

impl JunctionAccumulator {
    /// An accumulator that has seen no contact.
    pub fn new() -> (r: Self)
        ensures
            forall|s: Seq<IndexedSplitter>, k: JunctionKey|
                accumulator_is(r, s, k, Set::<(int, int)>::empty()),
    {
        let vacant = ArmClaim { splitter: None, conflicting: false };
        JunctionAccumulator {
            north: vacant,
            east: vacant,
            south: vacant,
            west: vacant,
            x_band: None,
            y_band: None,
        }
    }

    /// Adds the contact of north-south splitter `i` and west-east splitter `j`.
    pub fn add_contact(
        &mut self,
        s: &[IndexedSplitter],
        k: JunctionKey,
        i: usize,
        j: usize,
        Ghost(m): Ghost<Set<(int, int)>>,
    )
        requires
            i < s@.len(),
            j < s@.len(),
            accumulator_is(*old(self), s@, k, m),
        ensures
            accumulator_is(*final(self), s@, k, m.insert((i as int, j as int))),
    {
        let p: Ghost<(int, int)> = Ghost((i as int, j as int));
        let north_south = s[i];
        let west_east = s[j];
        let ghost before = *self;
        if 2 * (north_south.draw.y as i64) < k.cy2 {
            self.north.claim(north_south.id);
        }
        if 2 * north_south.draw.max_y() > k.cy2 {
            self.south.claim(north_south.id);
        }
        if 2 * (west_east.draw.x as i64) < k.cx2 {
            self.west.claim(west_east.id);
        }
        if 2 * west_east.draw.max_x() > k.cx2 {
            self.east.claim(west_east.id);
        }
        self.x_band = intersect(self.x_band, north_south.hit.x as i64, north_south.hit.max_x());
        self.y_band = intersect(self.y_band, west_east.hit.y as i64, west_east.hit.max_y());
        proof {
            let m2 = m.insert(p@);
            lemma_arm_step(s@, k, SplitterJunctionDirection::North, m, p@, before.north, self.north);
            lemma_arm_step(s@, k, SplitterJunctionDirection::South, m, p@, before.south, self.south);
            lemma_arm_step(s@, k, SplitterJunctionDirection::West, m, p@, before.west, self.west);
            lemma_arm_step(s@, k, SplitterJunctionDirection::East, m, p@, before.east, self.east);
            assert(m2.contains(p@));
            match before.x_band {
                None => {
                    assert forall|q: (int, int)| m2.contains(q) implies q == p@ by {}
                },
                Some((lo, hi)) => {
                    let w = choose|w: (int, int)| m.contains(w) && s@[w.0].hit.x == lo;
                    assert(m2.contains(w));
                    let w2 = choose|w2: (int, int)| m.contains(w2) && s@[w2.0].hit.right() == hi;
                    assert(m2.contains(w2));
                },
            }
            match before.y_band {
                None => {
                    assert forall|q: (int, int)| m2.contains(q) implies q == p@ by {}
                },
                Some((lo, hi)) => {
                    let w = choose|w: (int, int)| m.contains(w) && s@[w.1].hit.y == lo;
                    assert(m2.contains(w));
                    let w2 = choose|w2: (int, int)| m.contains(w2) && s@[w2.1].hit.bottom() == hi;
                    assert(m2.contains(w2));
                },
            }
        }
    }

    /// The junction formed by the gathered contacts, if any.
    pub fn finish(
        self,
        k: JunctionKey,
        Ghost(s): Ghost<Seq<IndexedSplitter>>,
        Ghost(m): Ghost<Set<(int, int)>>,
    ) -> (r: Option<SplitterJunctionCandidate>)
        requires
            accumulator_is(self, s, k, m),
        ensures
            r == candidate_over(s, k, m),
    {
        reveal(candidate_over);
        if self.north.conflicting || self.east.conflicting || self.south.conflicting
            || self.west.conflicting {
            return None;
        }
        let id = SplitterJunctionId::new(
            self.north.splitter,
            self.east.splitter,
            self.south.splitter,
            self.west.splitter,
        );
        if id.arm_count() < 3 {
            return None;
        }
        proof {
            if self.x_band is None || self.y_band is None {
                assert(!claimed(s, k, SplitterJunctionDirection::North, m));
                assert(!claimed(s, k, SplitterJunctionDirection::East, m));
                assert(!claimed(s, k, SplitterJunctionDirection::South, m));
                assert(!claimed(s, k, SplitterJunctionDirection::West, m));
            }
        }
        let (x_lo, x_hi) = match self.x_band {
            Some(band) => band,
            None => {
                return None;
            },
        };
        let (y_lo, y_hi) = match self.y_band {
            Some(band) => band,
            None => {
                return None;
            },
        };
        proof {
            let cx_lo = choose|v: int| x_lo_is(s, m, v);
            let cx_hi = choose|v: int| x_hi_is(s, m, v);
            let cy_lo = choose|v: int| y_lo_is(s, m, v);
            let cy_hi = choose|v: int| y_hi_is(s, m, v);
            assert(x_lo_is(s, m, x_lo as int));
            assert(x_hi_is(s, m, x_hi as int));
            assert(y_lo_is(s, m, y_lo as int));
            assert(y_hi_is(s, m, y_hi as int));
            let w1 = choose|w: (int, int)| m.contains(w) && s[w.0].hit.x == cx_lo;
            let w2 = choose|w: (int, int)| m.contains(w) && s[w.0].hit.x == x_lo;
            assert(cx_lo == x_lo);
            let w3 = choose|w: (int, int)| m.contains(w) && s[w.0].hit.right() == cx_hi;
            let w4 = choose|w: (int, int)| m.contains(w) && s[w.0].hit.right() == x_hi;
            assert(cx_hi == x_hi);
            let w5 = choose|w: (int, int)| m.contains(w) && s[w.1].hit.y == cy_lo;
            let w6 = choose|w: (int, int)| m.contains(w) && s[w.1].hit.y == y_lo;
            assert(cy_lo == y_lo);
            let w7 = choose|w: (int, int)| m.contains(w) && s[w.1].hit.bottom() == cy_hi;
            let w8 = choose|w: (int, int)| m.contains(w) && s[w.1].hit.bottom() == y_hi;
            assert(cy_hi == y_hi);
            assert(x_hi <= s[w2.0].hit.right());
            assert(y_hi <= s[w6.1].hit.bottom());
        }
        if !(x_lo < x_hi && y_lo < y_hi) {
            return None;
        }
        Some(
            SplitterJunctionCandidate {
                id,
                hit: LogicalRect {
                    x: x_lo as i32,
                    y: y_lo as i32,
                    width: (x_hi - x_lo) as u32,
                    height: (y_hi - y_lo) as u32,
                },
                layer: SceneLayerKey(k.layer),
            },
        )
    }
}

/// A junction has at least three arms on its key's layer, and every arm is a
/// splitter of one of its structural contacts: expanded hit geometry alone
/// never creates a junction.
pub proof fn lemma_junction_shape(s: Seq<IndexedSplitter>, k: JunctionKey)
    requires
        candidate_at(s, k) is Some,
    ensures
        candidate_at(s, k)->0.id.arm_count_spec() >= 3,
        candidate_at(s, k)->0.layer == SceneLayerKey(k.layer),
        forall|id: SplitterSceneId|
            candidate_at(s, k)->0.id.incident(id) ==> exists|p: (int, int)|
                members(s, k).contains(p) && (s[p.0].id == id || s[p.1].id == id),
{
    reveal(candidate_over);
    let m = members(s, k);
    assert forall|id: SplitterSceneId| candidate_at(s, k)->0.id.incident(id) implies exists|
        p: (int, int),
    | members(s, k).contains(p) && (s[p.0].id == id || s[p.1].id == id) by {
        let c = candidate_at(s, k)->0;
        if c.id.north == Some(id) {
            let p = choose|p: (int, int)| m.contains(p) && claims(s, k, SplitterJunctionDirection::North, p);
        } else if c.id.east == Some(id) {
            let p = choose|p: (int, int)| m.contains(p) && claims(s, k, SplitterJunctionDirection::East, p);
        } else if c.id.south == Some(id) {
            let p = choose|p: (int, int)| m.contains(p) && claims(s, k, SplitterJunctionDirection::South, p);
        } else {
            let p = choose|p: (int, int)| m.contains(p) && claims(s, k, SplitterJunctionDirection::West, p);
        }
    }
}

/// Two contacts claiming one arm for different splitters make the junction
/// ambiguous: no junction is reported and no winner is chosen.
pub proof fn lemma_contested_arm_fails_closed(
    s: Seq<IndexedSplitter>,
    k: JunctionKey,
    d: SplitterJunctionDirection,
)
    requires
        contested(s, k, d, members(s, k)),
    ensures
        candidate_at(s, k) is None,
{
    reveal(candidate_over);
}

} // verus!
