//! Junction derivation: the broad-phase contacts are grouped by junction key,
//! each group is finished into at most one junction, and junctions whose
//! identity is not unique are discarded.

use vstd::prelude::*;

use crate::junction::accumulate::{
    arm_over, candidate_at, candidate_over, claimant, claimed, claims, contact_key, held, key_le,
    key_le_exec, members, JunctionAccumulator, JunctionKey, KeyedContact,
};
use crate::junction::splitters::{
    is_contact, IndexedSplitter, SplitterJunctionCandidate, SweepMetrics,
};
use crate::junction::sweep::sweep_contacts;
use crate::records::splitter::{
    junction_id_less, junction_id_lt, lemma_junction_id_order, SplitterJunctionDirection,
    SplitterRecord,
};
use crate::sorting::{sort_by_key, sorted_by_key, SortKey};
use crate::records::splitter::SplitterSceneId;
use crate::ids::SceneLayerKey;

verus! {

/// No junction at another key has the same identity as the junction at `k`.
pub open spec fn id_unique(s: Seq<IndexedSplitter>, k: JunctionKey) -> bool {
    forall|other: JunctionKey|
        other != k && (#[trigger] candidate_at(s, other)) is Some ==> candidate_at(s, other)->0.id
            != candidate_at(s, k)->0.id
}

/// `c` is the junction of some key, and no other key's junction shares its
/// identity.
pub open spec fn reported(s: Seq<IndexedSplitter>, c: SplitterJunctionCandidate) -> bool {
    exists|k: JunctionKey| candidate_at(s, k) == Some(c) && id_unique(s, k)
}

/// A junction with the key it was derived at.
#[derive(Debug, Clone, Copy, PartialEq, Eq, Structural)]
pub struct KeyedCandidate {
    /// The junction.
    pub candidate: SplitterJunctionCandidate,
    /// Its key.
    pub key: JunctionKey,
}

impl SortKey for KeyedCandidate {
    open spec fn sort_le(self, other: Self) -> bool {
        !junction_id_lt(other.candidate.id, self.candidate.id)
    }

    proof fn lemma_sort_order(a: Self, b: Self, c: Self) {
        lemma_junction_id_order(a.candidate.id, b.candidate.id, c.candidate.id);
        lemma_junction_id_order(c.candidate.id, b.candidate.id, a.candidate.id);
        lemma_junction_id_order(b.candidate.id, a.candidate.id, c.candidate.id);
    }

    fn sort_le_exec(&self, other: &Self) -> (r: bool) {
        !junction_id_less(other.candidate.id, self.candidate.id)
    }
}

fn contact_key_exec(s: &[IndexedSplitter], i: usize, j: usize) -> (r: JunctionKey)
    requires
        i < s@.len(),
        j < s@.len(),
    ensures
        r == contact_key(s@, i as int, j as int),
{
    JunctionKey {
        root: s[i].id.root.0,
        layer: s[i].layer.0,
        cx2: s[i].draw.x as i64 + s[i].draw.max_x(),
        cy2: s[j].draw.y as i64 + s[j].draw.max_y(),
    }
}

/// A junction exists only where some contact exists.
proof fn lemma_candidate_has_members(s: Seq<IndexedSplitter>, k: JunctionKey)
    requires
        candidate_at(s, k) is Some,
    ensures
        exists|p: (int, int)| members(s, k).contains(p),
{
    reveal(candidate_over);
    let m = members(s, k);
    if !claimed(s, k, SplitterJunctionDirection::North, m) && !claimed(
        s,
        k,
        SplitterJunctionDirection::East,
        m,
    ) && !claimed(s, k, SplitterJunctionDirection::South, m) && !claimed(
        s,
        k,
        SplitterJunctionDirection::West,
        m,
    ) {
        assert(held(arm_over(s, k, SplitterJunctionDirection::North, m)) is None);
        assert(held(arm_over(s, k, SplitterJunctionDirection::East, m)) is None);
        assert(held(arm_over(s, k, SplitterJunctionDirection::South, m)) is None);
        assert(held(arm_over(s, k, SplitterJunctionDirection::West, m)) is None);
    }
}

/// The keyed contacts of every structural contact, ordered by junction key.
fn keyed_contacts(s: &[IndexedSplitter], contacts: &Vec<(usize, usize)>) -> (r: Vec<KeyedContact>)
    requires
        forall|i: usize, j: usize|
            #[trigger] contacts@.contains((i, j)) <==> is_contact(s@, i as int, j as int),
    ensures
        keyed_contacts_ok(s@, r@),
{
    let count = s.len();
    let mut keyed: Vec<KeyedContact> = Vec::new();
    let mut a: usize = 0;
    while a < contacts.len()
        invariant
            a <= contacts@.len(),
            keyed@.len() == a,
            forall|i: usize, j: usize|
                #[trigger] contacts@.contains((i, j)) <==> is_contact(s@, i as int, j as int),
            forall|b: int|
                0 <= b < a ==> keyed@[b] == (KeyedContact {
                    key: contact_key(s@, contacts@[b].0 as int, contacts@[b].1 as int),
                    ns: contacts@[b].0,
                    we: contacts@[b].1,
                }),
        decreases contacts@.len() - a,
    {
        let (i, j) = contacts[a];
        proof {
            assert(contacts@.contains((i, j)));
        }
        keyed.push(KeyedContact { key: contact_key_exec(s, i, j), ns: i, we: j });
        a = a + 1;
    }
    let sorted = sort_by_key(keyed.as_slice());
    proof {
        assert forall|b: int| 0 <= b < sorted@.len() implies is_contact(
            s@,
            sorted@[b].ns as int,
            sorted@[b].we as int,
        ) && sorted@[b].key == contact_key(s@, sorted@[b].ns as int, sorted@[b].we as int) by {
            vstd::seq_lib::to_multiset_contains(sorted@, sorted@[b]);
            vstd::seq_lib::to_multiset_contains(keyed@, sorted@[b]);
            let c = choose|c: int| 0 <= c < keyed@.len() && keyed@[c] == sorted@[b];
            assert(contacts@.contains(contacts@[c]));
        }
        assert forall|i: int, j: int| is_contact(s@, i, j) implies sorted@.contains(
            KeyedContact { key: contact_key(s@, i, j), ns: i as usize, we: j as usize },
        ) by {
            assert(s@.len() == count);
            assert(contacts@.contains((i as usize, j as usize)));
            let c = choose|c: int| 0 <= c < contacts@.len() && contacts@[c] == (i as usize, j as usize);
            assert(keyed@[c] == KeyedContact {
                key: contact_key(s@, i, j),
                ns: i as usize,
                we: j as usize,
            });
            vstd::seq_lib::to_multiset_contains(keyed@, keyed@[c]);
            vstd::seq_lib::to_multiset_contains(sorted@, keyed@[c]);
        }
        reveal(keyed_contacts_ok);
    }
    sorted
}

/// The pairs of a range of keyed contacts.
pub open spec fn run_pairs(contacts: Seq<KeyedContact>, a: int, b: int) -> Set<(int, int)> {
    Set::new(
        |p: (int, int)|
            exists|u: int| a <= u < b && contacts[u].ns == p.0 && contacts[u].we == p.1,
    )
}

/// Keyed contacts ordered by key, each a structural contact under its own
/// key, covering every structural contact.
#[verifier::opaque]
pub open spec fn keyed_contacts_ok(s: Seq<IndexedSplitter>, contacts: Seq<KeyedContact>) -> bool {
    &&& s.len() <= usize::MAX
    &&& sorted_by_key(contacts)
    &&& forall|a: int|
        0 <= a < contacts.len() ==> is_contact(s, contacts[a].ns as int, contacts[a].we as int)
            && contacts[a].key == contact_key(s, contacts[a].ns as int, contacts[a].we as int)
    &&& forall|i: int, j: int|
        is_contact(s, i, j) ==> contacts.contains(
            KeyedContact { key: contact_key(s, i, j), ns: i as usize, we: j as usize },
        )
}

proof fn lemma_key_le_antisymmetric(a: JunctionKey, b: JunctionKey)
    ensures
        key_le(a, b) && key_le(b, a) ==> a == b,
        key_le(a, b) || key_le(b, a),
{
}

proof fn lemma_run_step(contacts: Seq<KeyedContact>, a: int, b: int)
    requires
        0 <= a <= b < contacts.len(),
    ensures
        run_pairs(contacts, a, b + 1) == run_pairs(contacts, a, b).insert(
            (contacts[b].ns as int, contacts[b].we as int),
        ),
{
    let c = contacts[b];
    let next = run_pairs(contacts, a, b).insert((c.ns as int, c.we as int));
    assert forall|p: (int, int)| run_pairs(contacts, a, b + 1).contains(p) implies next.contains(
        p,
    ) by {
        let u = choose|u: int| a <= u < b + 1 && contacts[u].ns == p.0 && contacts[u].we == p.1;
        if u < b {
            assert(run_pairs(contacts, a, b).contains(p));
        }
    }
    assert forall|p: (int, int)| next.contains(p) implies run_pairs(contacts, a, b + 1).contains(
        p,
    ) by {
        if p != (c.ns as int, c.we as int) {
            let u = choose|u: int| a <= u < b && contacts[u].ns == p.0 && contacts[u].we == p.1;
        }
    }
    assert(run_pairs(contacts, a, b + 1) =~= next);
}

/// A maximal run of equal keys holds exactly the contacts of that key.
proof fn lemma_run_is_members(
    s: Seq<IndexedSplitter>,
    contacts: Seq<KeyedContact>,
    a: int,
    b: int,
    k: JunctionKey,
)
    requires
        0 <= a < b <= contacts.len(),
        keyed_contacts_ok(s, contacts),
        contacts[a].key == k,
        a > 0 ==> contacts[a - 1].key != k,
        b < contacts.len() ==> contacts[b].key != k,
        forall|u: int| a <= u < b ==> contacts[u].key == k,
    ensures
        run_pairs(contacts, a, b) == members(s, k),
{
    reveal(keyed_contacts_ok);
    let m = run_pairs(contacts, a, b);
    assert forall|p: (int, int)| m.contains(p) implies members(s, k).contains(p) by {
        let u = choose|u: int| a <= u < b && contacts[u].ns == p.0 && contacts[u].we == p.1;
    }
    assert forall|p: (int, int)| members(s, k).contains(p) implies m.contains(p) by {
        let x = KeyedContact { key: k, ns: p.0 as usize, we: p.1 as usize };
        assert(contacts.contains(x));
        let u = choose|u: int| 0 <= u < contacts.len() && contacts[u] == x;
        if u < a {
            if u < a - 1 {
                assert(contacts[u].sort_le(contacts[a - 1]));
            }
            assert(contacts[a - 1].sort_le(contacts[a]));
            lemma_key_le_antisymmetric(contacts[a - 1].key, k);
        } else if u >= b {
            if u > b {
                assert(contacts[b].sort_le(contacts[u]));
            }
            assert(contacts[a].sort_le(contacts[b]));
            lemma_key_le_antisymmetric(contacts[b].key, k);
        }
    }
    assert(m =~= members(s, k));
}

/// A key with a junction has a contact in the keyed list.
proof fn lemma_junction_key_listed(s: Seq<IndexedSplitter>, contacts: Seq<KeyedContact>, k: JunctionKey)
    requires
        keyed_contacts_ok(s, contacts),
        candidate_at(s, k) is Some,
    ensures
        exists|u: int| 0 <= u < contacts.len() && contacts[u].key == k,
{
    reveal(keyed_contacts_ok);
    lemma_candidate_has_members(s, k);
    let p = choose|p: (int, int)| members(s, k).contains(p);
    let x = KeyedContact { key: k, ns: p.0 as usize, we: p.1 as usize };
    assert(contacts.contains(x));
    let u = choose|u: int| 0 <= u < contacts.len() && contacts[u] == x;
}

/// The next run starts with a new, greater key.
proof fn lemma_next_run(contacts: Seq<KeyedContact>, s: Seq<IndexedSplitter>, b: int, k: JunctionKey)
    requires
        keyed_contacts_ok(s, contacts),
        0 < b < contacts.len(),
        contacts[b - 1].key == k,
        contacts[b].key != k,
    ensures
        key_le(k, contacts[b].key),
{
    reveal(keyed_contacts_ok);
    assert(contacts[b - 1].sort_le(contacts[b]));
}

/// The junction of every key that has one, each key once, in key order.
#[verifier::rlimit(60)]
fn junctions_by_key(s: &[IndexedSplitter], contacts: &Vec<KeyedContact>) -> (r: Vec<KeyedCandidate>)
    requires
        keyed_contacts_ok(s@, contacts@),
    ensures
        junction_list_ok(s@, r@),
{
    let mut found: Vec<KeyedCandidate> = Vec::new();
    let mut a: usize = 0;
    while a < contacts.len()
        invariant
            keyed_contacts_ok(s@, contacts@),
            a <= contacts@.len(),
            a < contacts@.len() && a > 0 ==> contacts@[a - 1].key != contacts@[a as int].key,
            forall|e: int|
                0 <= e < found@.len() ==> candidate_at(s@, found@[e].key) == Some(
                    found@[e].candidate,
                ),
            forall|e1: int, e2: int|
                0 <= e1 < e2 < found@.len() ==> key_le(found@[e1].key, found@[e2].key)
                    && found@[e1].key != found@[e2].key,
            a < contacts@.len() ==> forall|e: int|
                0 <= e < found@.len() ==> key_le(found@[e].key, contacts@[a as int].key)
                    && found@[e].key != contacts@[a as int].key,
            forall|u: int|
                0 <= u < a && candidate_at(s@, #[trigger] contacts@[u].key) is Some ==> exists|e: int|
                    0 <= e < found@.len() && found@[e].key == contacts@[u].key,
        decreases contacts@.len() - a,
    {
        let k = contacts[a].key;
        let mut accumulator = JunctionAccumulator::new();
        let ghost mut m: Set<(int, int)> = Set::empty();
        let mut b: usize = a;
        proof {
            assert(run_pairs(contacts@, a as int, a as int) =~= m);
        }
        while b < contacts.len() && key_le_exec(contacts[b].key, k) && key_le_exec(k, contacts[b].key)
            invariant
                keyed_contacts_ok(s@, contacts@),
                a < contacts@.len(),
                contacts@[a as int].key == k,
                a <= b <= contacts@.len(),
                forall|u: int| a <= u < b ==> contacts@[u].key == k,
                m == run_pairs(contacts@, a as int, b as int),
                crate::junction::accumulate::accumulator_is(accumulator, s@, k, m),
            decreases contacts@.len() - b,
        {
            let c = contacts[b];
            proof {
                lemma_key_le_antisymmetric(c.key, k);
                reveal(keyed_contacts_ok);
                assert(is_contact(s@, contacts@[b as int].ns as int, contacts@[b as int].we as int));
            }
            accumulator.add_contact(s, k, c.ns, c.we, Ghost(m));
            proof {
                lemma_run_step(contacts@, a as int, b as int);
                m = m.insert((c.ns as int, c.we as int));
            }
            b = b + 1;
        }
        proof {
            lemma_key_le_antisymmetric(k, k);
            assert(b > a);
            if b < contacts@.len() {
                lemma_key_le_antisymmetric(contacts@[b as int].key, k);
            }
            lemma_run_is_members(s@, contacts@, a as int, b as int, k);
        }
        let ghost before = found@;
        match accumulator.finish(k, Ghost(s@), Ghost(m)) {
            Some(candidate) => {
                found.push(KeyedCandidate { candidate, key: k });
            },
            None => {},
        }
        proof {
            assert forall|u: int|
                0 <= u < b && candidate_at(s@, #[trigger] contacts@[u].key) is Some implies exists|e: int|
                0 <= e < found@.len() && found@[e].key == contacts@[u].key by {
                if u < a {
                    let e = choose|e: int| 0 <= e < before.len() && before[e].key == contacts@[u].key;
                    assert(found@[e] == before[e]);
                } else {
                    assert(found@[found@.len() - 1].key == k);
                }
            }
            if b < contacts@.len() {
                lemma_next_run(contacts@, s@, b as int, k);
                assert forall|e: int| 0 <= e < found@.len() implies key_le(
                    found@[e].key,
                    contacts@[b as int].key,
                ) && found@[e].key != contacts@[b as int].key by {
                    lemma_key_le_antisymmetric(k, contacts@[b as int].key);
                    if e < before.len() {
                        lemma_key_le_antisymmetric(found@[e].key, contacts@[b as int].key);
                        assert(key_le(found@[e].key, k));
                    }
                }
            }
        }
        a = b;
    }
    proof {
        assert forall|k: JunctionKey| #[trigger] candidate_at(s@, k) is Some implies exists|e: int|
            0 <= e < found@.len() && found@[e].key == k by {
            lemma_junction_key_listed(s@, contacts@, k);
            let u = choose|u: int| 0 <= u < contacts@.len() && contacts@[u].key == k;
            assert(candidate_at(s@, contacts@[u].key) is Some);
        }
        assert forall|e1: int, e2: int| 0 <= e1 < e2 < found@.len() implies found@[e1].key
            != found@[e2].key by {
            assert(key_le(found@[e1].key, found@[e2].key) && found@[e1].key != found@[e2].key);
        }
        reveal(junction_list_ok);
    }
    found
}

/// No other entry of `q` has the identity of entry `e`.
pub open spec fn alone(q: Seq<KeyedCandidate>, e: int) -> bool {
    forall|f: int| 0 <= f < q.len() && f != e ==> q[f].candidate.id != q[e].candidate.id
}

/// Every entry is the junction of its key, keys are distinct, and every key
/// with a junction has an entry.
#[verifier::opaque]
pub open spec fn junction_list_ok(s: Seq<IndexedSplitter>, list: Seq<KeyedCandidate>) -> bool {
    &&& forall|e: int| 0 <= e < list.len() ==> candidate_at(s, list[e].key) == Some(list[e].candidate)
    &&& forall|e1: int, e2: int| 0 <= e1 < e2 < list.len() ==> list[e1].key != list[e2].key
    &&& forall|k: JunctionKey|
        #[trigger] candidate_at(s, k) is Some ==> exists|e: int| 0 <= e < list.len() && list[e].key == k
}

proof fn lemma_id_order(a: KeyedCandidate, b: KeyedCandidate)
    ensures
        a.sort_le(b) && b.sort_le(a) ==> a.candidate.id == b.candidate.id,
        a.sort_le(b) && a.candidate.id != b.candidate.id ==> junction_id_lt(
            a.candidate.id,
            b.candidate.id,
        ),
{
    lemma_junction_id_order(a.candidate.id, b.candidate.id, a.candidate.id);
}

/// In an identity-ordered list, an entry is alone exactly when both of its
/// neighbors have other identities.
proof fn lemma_alone_by_neighbors(q: Seq<KeyedCandidate>, e: int)
    requires
        sorted_by_key(q),
        0 <= e < q.len(),
        e > 0 ==> q[e - 1].candidate.id != q[e].candidate.id,
        e + 1 < q.len() ==> q[e + 1].candidate.id != q[e].candidate.id,
    ensures
        alone(q, e),
{
    assert forall|f: int| 0 <= f < q.len() && f != e implies q[f].candidate.id
        != q[e].candidate.id by {
        if f < e {
            if f < e - 1 {
                assert(q[f].sort_le(q[e - 1]));
            }
            assert(q[e - 1].sort_le(q[e]));
            if q[f].candidate.id == q[e].candidate.id {
                lemma_id_order(q[e - 1], q[e]);
                KeyedCandidate::lemma_sort_order(q[f], q[e - 1], q[e]);
            }
        } else {
            if f > e + 1 {
                assert(q[e + 1].sort_le(q[f]));
            }
            assert(q[e].sort_le(q[e + 1]));
            if q[f].candidate.id == q[e].candidate.id {
                lemma_id_order(q[e], q[e + 1]);
                KeyedCandidate::lemma_sort_order(q[e], q[e + 1], q[f]);
            }
        }
    }
}

/// An entry of a reordered junction list is alone exactly when its identity
/// is unique among all junctions.
proof fn lemma_alone_iff_unique(
    s: Seq<IndexedSplitter>,
    list: Seq<KeyedCandidate>,
    q: Seq<KeyedCandidate>,
    e: int,
)
    requires
        junction_list_ok(s, list),
        q.to_multiset() == list.to_multiset(),
        q.no_duplicates(),
        0 <= e < q.len(),
    ensures
        candidate_at(s, q[e].key) == Some(q[e].candidate),
        alone(q, e) <==> id_unique(s, q[e].key),
{
    reveal(junction_list_ok);
    vstd::seq_lib::to_multiset_contains(q, q[e]);
    vstd::seq_lib::to_multiset_contains(list, q[e]);
    let k = q[e].key;
    if alone(q, e) {
        assert forall|other: JunctionKey|
            other != k && (#[trigger] candidate_at(s, other)) is Some implies candidate_at(
            s,
            other,
        )->0.id != candidate_at(s, k)->0.id by {
            let g = choose|g: int| 0 <= g < list.len() && list[g].key == other;
            vstd::seq_lib::to_multiset_contains(list, list[g]);
            vstd::seq_lib::to_multiset_contains(q, list[g]);
            let f = choose|f: int| 0 <= f < q.len() && q[f] == list[g];
        }
    }
    if id_unique(s, k) {
        assert forall|f: int| 0 <= f < q.len() && f != e implies q[f].candidate.id
            != q[e].candidate.id by {
            vstd::seq_lib::to_multiset_contains(q, q[f]);
            vstd::seq_lib::to_multiset_contains(list, q[f]);
            let g = choose|g: int| 0 <= g < list.len() && list[g] == q[f];
            if q[f].key == k {
                assert(q[f] == q[e]);
            } else {
                assert(candidate_at(s, q[f].key) is Some);
            }
        }
    }
}

/// Keeps, in identity order, the junctions whose identity no other junction
/// shares.
fn unique_identities(list: &Vec<KeyedCandidate>, Ghost(s): Ghost<Seq<IndexedSplitter>>) -> (r: Vec<
    SplitterJunctionCandidate,
>)
    requires
        junction_list_ok(s, list@),
    ensures
        forall|a: int, b: int|
            0 <= a < b < r@.len() ==> junction_id_lt(r@[a].id, r@[b].id),
        forall|a: int| 0 <= a < r@.len() ==> reported(s, #[trigger] r@[a]),
        forall|k: JunctionKey|
            #[trigger] candidate_at(s, k) is Some && id_unique(s, k) ==> r@.contains(
                candidate_at(s, k)->0,
            ),
{
    let ordered = sort_by_key(list.as_slice());
    proof {
        reveal(junction_list_ok);
        assert(list@.no_duplicates()) by {
            assert forall|a: int, b: int|
                0 <= a < list@.len() && 0 <= b < list@.len() && a != b implies list@[a]
                != list@[b] by {
                if a < b {
                    assert(list@[a].key != list@[b].key);
                } else {
                    assert(list@[b].key != list@[a].key);
                }
            }
        }
        list@.lemma_multiset_has_no_duplicates();
        ordered@.lemma_multiset_has_no_duplicates_conv();
    }
    let mut kept: Vec<SplitterJunctionCandidate> = Vec::new();
    let ghost mut origin: Seq<int> = Seq::empty();
    let n = ordered.len();
    let mut e: usize = 0;
    while e < n
        invariant
            n == ordered@.len(),
            e <= n,
            sorted_by_key(ordered@),
            ordered@.no_duplicates(),
            ordered@.to_multiset() == list@.to_multiset(),
            junction_list_ok(s, list@),
            origin.len() == kept@.len(),
            forall|a: int|
                0 <= a < kept@.len() ==> 0 <= #[trigger] origin[a] < e && kept@[a]
                    == ordered@[origin[a]].candidate && alone(ordered@, origin[a]),
            forall|a: int, b: int| 0 <= a < b < kept@.len() ==> origin[a] < origin[b],
            forall|a: int, b: int|
                0 <= a < b < kept@.len() ==> junction_id_lt(kept@[a].id, kept@[b].id),
            forall|f: int| 0 <= f < e && alone(ordered@, f) ==> kept@.contains(ordered@[f].candidate),
        decreases n - e,
    {
        let id = ordered[e].candidate.id;
        let differs_before = e == 0 || ordered[e - 1].candidate.id != id;
        let differs_after = e + 1 == n || ordered[e + 1].candidate.id != id;
        proof {
            if differs_before && differs_after {
                lemma_alone_by_neighbors(ordered@, e as int);
            }
            if alone(ordered@, e as int) {
                if e > 0 {
                    assert(ordered@[e - 1].candidate.id != id);
                }
                if e + 1 < n {
                    assert(ordered@[e + 1].candidate.id != id);
                }
            }
        }
        if differs_before && differs_after {
            let ghost before = kept@;
            kept.push(ordered[e].candidate);
            proof {
                if before.len() > 0 {
                    let o = origin[before.len() - 1];
                    assert(ordered@[o].sort_le(ordered@[e as int]));
                    assert(ordered@[e as int].candidate.id != ordered@[o].candidate.id);
                    lemma_id_order(ordered@[o], ordered@[e as int]);
                    let last = before.len() - 1;
                    assert(junction_id_lt(kept@[last].id, kept@[last + 1].id));
                    assert forall|a: int, b: int|
                        0 <= a < b < kept@.len() implies junction_id_lt(kept@[a].id, kept@[b].id) by {
                        if b < last + 1 {
                            assert(kept@[a] == before[a] && kept@[b] == before[b]);
                        } else if a < last {
                            assert(kept@[a] == before[a] && kept@[last] == before[last]);
                            lemma_junction_id_order(kept@[a].id, kept@[last].id, kept@[b].id);
                        }
                    }
                }
                origin = origin.push(e as int);
                assert forall|f: int| 0 <= f < e + 1 && alone(ordered@, f) implies kept@.contains(
                    ordered@[f].candidate,
                ) by {
                    if f < e {
                        let a = choose|a: int| 0 <= a < before.len() && before[a] == ordered@[f].candidate;
                        assert(kept@[a] == before[a]);
                    } else {
                        assert(kept@[kept@.len() - 1] == ordered@[f].candidate);
                    }
                }
            }
        }
        e = e + 1;
    }
    proof {
        assert forall|a: int| 0 <= a < kept@.len() implies reported(s, #[trigger] kept@[a]) by {
            lemma_alone_iff_unique(s, list@, ordered@, origin[a]);
            assert(candidate_at(s, ordered@[origin[a]].key) == Some(kept@[a]));
        }
        assert forall|k: JunctionKey| #[trigger]
            candidate_at(s, k) is Some && id_unique(s, k) implies kept@.contains(
            candidate_at(s, k)->0,
        ) by {
            reveal(junction_list_ok);
            let g = choose|g: int| 0 <= g < list@.len() && list@[g].key == k;
            vstd::seq_lib::to_multiset_contains(list@, list@[g]);
            vstd::seq_lib::to_multiset_contains(ordered@, list@[g]);
            let f = choose|f: int| 0 <= f < ordered@.len() && ordered@[f] == list@[g];
            lemma_alone_iff_unique(s, list@, ordered@, f);
        }
    }
    kept
}

/// Every unambiguous three- or four-arm junction of `s`, each with a unique
/// identity, in identity order, and the broad phase's work counters.
///
/// Splitters meet where a north-south splitter's painted bounds touch a
/// west-east splitter's painted bounds within one root and layer; the
/// contacts sharing one centerline intersection form one junction. An arm
/// claimed by two different splitters makes the junction ambiguous, and the
/// junction's hit region is the intersection of its splitters' hit bands.
pub fn derive_indexed_splitter_junction_candidates(s: &[IndexedSplitter]) -> (r: (
    Vec<SplitterJunctionCandidate>,
    SweepMetrics,
))
    ensures
        forall|a: int, b: int|
            0 <= a < b < r.0@.len() ==> junction_id_lt(r.0@[a].id, r.0@[b].id),
        forall|a: int| 0 <= a < r.0@.len() ==> reported(s@, #[trigger] r.0@[a]),
        forall|k: JunctionKey|
            #[trigger] candidate_at(s@, k) is Some && id_unique(s@, k) ==> r.0@.contains(
                candidate_at(s@, k)->0,
            ),
        r.1.broad_phase_pairs == r.1.structural_contacts,
{
    let (contacts, metrics) = sweep_contacts(s);
    let keyed = keyed_contacts(s, &contacts);
    let found = junctions_by_key(s, &keyed);
    let unique = unique_identities(&found, Ghost(s@));
    (unique, metrics)
}

/// The junction geometry of one record.
pub open spec fn indexed_of(record: SplitterRecord) -> IndexedSplitter {
    IndexedSplitter {
        id: record.spec_id(),
        draw: record.draw_bounds(),
        hit: record.hit().rect,
        axis: record.axis(),
        layer: record.layer(),
    }
}

/// The junction geometry of the operable records, in record order.
pub open spec fn operable_splitters(records: Seq<SplitterRecord>) -> Seq<IndexedSplitter>
    decreases records.len(),
{
    if records.len() == 0 {
        Seq::empty()
    } else if records.last().operable() {
        operable_splitters(records.drop_last()).push(indexed_of(records.last()))
    } else {
        operable_splitters(records.drop_last())
    }
}

/// Some operable record of `records` on `layer` has identity `id`.
pub open spec fn operable_record_named(records: Seq<SplitterRecord>, id: SplitterSceneId, layer: SceneLayerKey) -> bool {
    exists|k: int|
        0 <= k < records.len() && records[k].spec_id() == id && #[trigger] records[k].operable()
            && records[k].layer() == layer
}

/// `c` has at least three arms, and every arm of `c` is held by an operable
/// record of `records` on the junction's layer.
#[verifier::opaque]
pub open spec fn arms_held_by_operable(records: Seq<SplitterRecord>, c: SplitterJunctionCandidate) -> bool {
    &&& c.id.arm_count_spec() >= 3
    &&& (c.id.north matches Some(id) ==> operable_record_named(records, id, c.layer))
    &&& (c.id.east matches Some(id) ==> operable_record_named(records, id, c.layer))
    &&& (c.id.south matches Some(id) ==> operable_record_named(records, id, c.layer))
    &&& (c.id.west matches Some(id) ==> operable_record_named(records, id, c.layer))
}

/// Each splitter kept for junction derivation is the geometry of an operable record.
proof fn lemma_operable_splitters_are_operable(records: Seq<SplitterRecord>)
    ensures
        forall|i: int|
            0 <= i < operable_splitters(records).len() ==> exists|k: int|
                0 <= k < records.len() && #[trigger] operable_splitters(records)[i] == indexed_of(
                    records[k],
                ) && records[k].operable(),
    decreases records.len(),
{
    if records.len() > 0 {
        let rest = records.drop_last();
        lemma_operable_splitters_are_operable(rest);
        assert forall|i: int| 0 <= i < operable_splitters(records).len() implies exists|k: int|
            0 <= k < records.len() && #[trigger] operable_splitters(records)[i] == indexed_of(
                records[k],
            ) && records[k].operable() by {
            if i < operable_splitters(rest).len() {
                assert(operable_splitters(records)[i] == operable_splitters(rest)[i]);
                let k = choose|k: int|
                    0 <= k < rest.len() && #[trigger] operable_splitters(rest)[i] == indexed_of(rest[k])
                        && rest[k].operable();
                assert(records[k] == rest[k]);
            } else {
                let k = records.len() - 1;
                assert(records[k] == records.last());
            }
        }
    }
}

/// A held arm of a junction is a splitter of `s` on the junction's layer.
proof fn lemma_held_arm_in(s: Seq<IndexedSplitter>, k: JunctionKey, d: SplitterJunctionDirection, id: SplitterSceneId)
    requires
        held(arm_over(s, k, d, members(s, k))) == Some(id),
    ensures
        exists|i: int| 0 <= i < s.len() && (#[trigger] s[i]).id == id && s[i].layer.0 == k.layer,
{
    let m = members(s, k);
    let p = choose|p: (int, int)| m.contains(p) && claims(s, k, d, p);
    assert(is_contact(s, p.0, p.1));
    assert(claimant(s, d, p) == id);
    match d {
        SplitterJunctionDirection::North | SplitterJunctionDirection::South => {
            assert(s[p.0].id == id);
        },
        _ => {
            assert(s[p.1].id == id);
        },
    }
}

/// An arm held at key `k` is an operable record on the key's layer.
proof fn lemma_arm_operable(records: Seq<SplitterRecord>, k: JunctionKey, d: SplitterJunctionDirection, id: SplitterSceneId)
    requires
        held(arm_over(operable_splitters(records), k, d, members(operable_splitters(records), k)))
            == Some(id),
    ensures
        operable_record_named(records, id, SceneLayerKey(k.layer)),
{
    let s = operable_splitters(records);
    lemma_operable_splitters_are_operable(records);
    lemma_held_arm_in(s, k, d, id);
    let i = choose|i: int| 0 <= i < s.len() && (#[trigger] s[i]).id == id && s[i].layer.0 == k.layer;
    let r = choose|r: int| 0 <= r < records.len() && #[trigger] s[i] == indexed_of(records[r]) && records[r].operable();
    assert(records[r].operable());
}

/// Only operable splitters form junctions: every junction derived from
/// splitter records has at least three arms, and each arm is held by an
/// operable record on the junction's layer, so a locked splitter never
/// appears in a junction.
pub proof fn lemma_junction_arms_are_operable(records: Seq<SplitterRecord>, c: SplitterJunctionCandidate)
    requires
        reported(operable_splitters(records), c),
    ensures
        arms_held_by_operable(records, c),
{
    let s = operable_splitters(records);
    let k = choose|k: JunctionKey| candidate_at(s, k) == Some(c) && id_unique(s, k);
    reveal(candidate_over);
    reveal(arms_held_by_operable);
    assert(c.layer == SceneLayerKey(k.layer));
    if let Some(id) = c.id.north {
        lemma_arm_operable(records, k, SplitterJunctionDirection::North, id);
    }
    if let Some(id) = c.id.east {
        lemma_arm_operable(records, k, SplitterJunctionDirection::East, id);
    }
    if let Some(id) = c.id.south {
        lemma_arm_operable(records, k, SplitterJunctionDirection::South, id);
    }
    if let Some(id) = c.id.west {
        lemma_arm_operable(records, k, SplitterJunctionDirection::West, id);
    }
}

/// Every unambiguous three- or four-arm junction among the operable splitter
/// records, each with a unique identity, in identity order.
pub fn derive_splitter_junction_candidates(records: &[SplitterRecord]) -> (r: Vec<
    SplitterJunctionCandidate,
>)
    ensures
        forall|a: int| 0 <= a < r@.len() ==> arms_held_by_operable(records@, #[trigger] r@[a]),
        forall|a: int, b: int| 0 <= a < b < r@.len() ==> junction_id_lt(r@[a].id, r@[b].id),
        forall|a: int| 0 <= a < r@.len() ==> reported(operable_splitters(records@), #[trigger] r@[a]),
        forall|k: JunctionKey|
            #[trigger] candidate_at(operable_splitters(records@), k) is Some && id_unique(
                operable_splitters(records@),
                k,
            ) ==> r@.contains(candidate_at(operable_splitters(records@), k)->0),
{
    let mut indexed: Vec<IndexedSplitter> = Vec::new();
    let mut k: usize = 0;
    while k < records.len()
        invariant
            k <= records@.len(),
            indexed@ == operable_splitters(records@.subrange(0, k as int)),
        decreases records@.len() - k,
    {
        proof {
            assert(records@.subrange(0, k + 1).drop_last() =~= records@.subrange(0, k as int));
        }
        if records[k].operable() {
            indexed.push(IndexedSplitter::from_record(&records[k]));
        }
        k = k + 1;
    }
    proof {
        assert(records@.subrange(0, k as int) =~= records@);
    }
    let (candidates, _) = derive_indexed_splitter_junction_candidates(indexed.as_slice());
    proof {
        assert forall|a: int| 0 <= a < candidates@.len() implies arms_held_by_operable(
            records@,
            #[trigger] candidates@[a],
        ) by {
            lemma_junction_arms_are_operable(records@, candidates@[a]);
        }
    }
    candidates
}

} // verus!
