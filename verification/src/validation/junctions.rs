//! The splitter-junction records a plan must publish: exactly the derived
//! junctions of its operable splitters that keep authoritative area.

use vstd::prelude::*;

use crate::collections::{canonical, entry_keys, lemma_canonical_distinct, CanonicalKey, KeyMap};
use crate::junction::accumulate::{candidate_at, JunctionKey};
use crate::junction::derive::{
    derive_splitter_junction_candidates, id_unique, operable_splitters, reported,
};
use crate::junction::splitters::SplitterJunctionCandidate;
use crate::occlusion::{has_authoritative_area, region_has_authoritative_area};
use crate::plan::PresentationPlan;
use crate::records::splitter::{junction_id_lt, SplitterJunctionId, SplitterJunctionRecord};
use crate::validation::SceneBuildError;

verus! {

/// A junction the plan must publish: a derived junction of its operable
/// splitters whose hit region keeps authoritative area on its layer.
#[verifier::opaque]
pub open spec fn expected_junction(plan: &PresentationPlan, c: SplitterJunctionCandidate) -> bool {
    &&& reported(operable_splitters(plan.splitters_view()), c)
    &&& has_authoritative_area(c.hit, c.layer, plan.occlusions_view())
}

/// Every junction the plan must publish.
pub open spec fn expected_junctions(plan: &PresentationPlan) -> Set<SplitterJunctionCandidate> {
    Set::new(|c: SplitterJunctionCandidate| expected_junction(plan, c))
}

/// A junction record publishes exactly one derived junction: same identity
/// and layer, and a positive-area hit region equal to the derived one.
pub open spec fn junction_record_matches(
    record: SplitterJunctionRecord,
    c: SplitterJunctionCandidate,
) -> bool {
    &&& c.id == record.id()
    &&& c.layer == record.layer()
    &&& record.hit().rect.has_area()
    &&& record.hit().rect == c.hit
}

/// A junction record publishes one of the junctions the plan must publish.
pub open spec fn junction_record_valid(plan: &PresentationPlan, record: SplitterJunctionRecord) -> bool {
    exists|c: SplitterJunctionCandidate| expected_junction(plan, c) && junction_record_matches(record, c)
}

/// `i` is the first position of an invalid junction record.
pub open spec fn first_invalid_junction(plan: &PresentationPlan, i: int) -> bool {
    &&& 0 <= i < plan.junctions_view().len()
    &&& !junction_record_valid(plan, plan.junctions_view()[i])
    &&& forall|j: int| 0 <= j < i ==> junction_record_valid(plan, #[trigger] plan.junctions_view()[j])
}

/// How the plan's junction records fail to publish exactly its expected
/// junctions: first a count mismatch, then the first record (in record order)
/// that matches no expected junction.
pub open spec fn junction_records_error(plan: &PresentationPlan) -> Option<SceneBuildError> {
    let records = plan.junctions_view();
    if records.len() != expected_junctions(plan).len() {
        Some(SceneBuildError::SplitterJunctionRecordSetMismatch { surface: plan.surface() })
    } else if exists|i: int| first_invalid_junction(plan, i) {
        let i = choose|i: int| first_invalid_junction(plan, i);
        Some(
            SceneBuildError::InvalidSplitterJunctionRecord {
                surface: plan.surface(),
                id: records[i].id(),
            },
        )
    } else {
        None
    }
}

proof fn lemma_first_invalid_unique(plan: &PresentationPlan, i: int)
    requires
        first_invalid_junction(plan, i),
    ensures
        (choose|j: int| first_invalid_junction(plan, j)) == i,
{
    let c = choose|j: int| first_invalid_junction(plan, j);
    assert(first_invalid_junction(plan, c));
    if c < i {
        assert(junction_record_valid(plan, plan.junctions_view()[c]));
    }
    if c > i {
        assert(junction_record_valid(plan, plan.junctions_view()[i]));
    }
}

/// The expected junctions with their identities, in identity order.
fn expected_junction_map(ready: &PresentationPlan) -> (r: KeyMap<
    SplitterJunctionId,
    SplitterJunctionCandidate,
>)
    ensures
        forall|a: int| 0 <= a < r.view_seq().len() ==> (#[trigger] r.view_seq()[a]).0 == r.view_seq()[a].1.id,
        forall|a: int|
            0 <= a < r.view_seq().len() ==> expected_junction(ready, (#[trigger] r.view_seq()[a]).1),
        forall|c: SplitterJunctionCandidate|
            expected_junction(ready, c) ==> exists|a: int|
                0 <= a < r.view_seq().len() && (#[trigger] r.view_seq()[a]).1 == c,
        canonical(entry_keys(r.view_seq())),
{
    let candidates = derive_splitter_junction_candidates(ready.splitter_records());
    let occlusions = ready.drop_occlusions();
    let ghost s = operable_splitters(ready.splitters_view());
    let mut kept: Vec<(SplitterJunctionId, SplitterJunctionCandidate)> = Vec::new();
    let mut k: usize = 0;
    while k < candidates.len()
        invariant
            k <= candidates@.len(),
            s == operable_splitters(ready.splitters_view()),
            occlusions@ == ready.occlusions_view(),
            forall|a: int, b: int|
                0 <= a < b < candidates@.len() ==> junction_id_lt(candidates@[a].id, candidates@[b].id),
            forall|a: int| 0 <= a < candidates@.len() ==> reported(s, #[trigger] candidates@[a]),
            forall|a: int| 0 <= a < kept@.len() ==> (#[trigger] kept@[a]).0 == kept@[a].1.id,
            forall|a: int| 0 <= a < kept@.len() ==> expected_junction(ready, (#[trigger] kept@[a]).1),
            forall|a: int|
                0 <= a < kept@.len() ==> exists|b: int|
                    0 <= b < k && candidates@[b] == (#[trigger] kept@[a]).1,
            forall|b: int|
                0 <= b < k && expected_junction(ready, #[trigger] candidates@[b]) ==> exists|a: int|
                    0 <= a < kept@.len() && kept@[a].1 == candidates@[b],
            canonical(entry_keys(kept@)),
        decreases candidates@.len() - k,
    {
        let c = candidates[k];
        if region_has_authoritative_area(c.hit, c.layer, occlusions) {
            let ghost before = kept@;
            kept.push((c.id, c));
            proof {
                assert(expected_junction(ready, c)) by {
                    reveal(expected_junction);
                    assert(reported(s, candidates@[k as int]));
                }
                assert forall|a: int| 0 <= a < kept@.len() implies exists|b: int|
                    0 <= b < k + 1 && candidates@[b] == (#[trigger] kept@[a]).1 by {
                    if a == before.len() {
                        assert(candidates@[k as int] == kept@[a].1);
                    } else {
                        assert(kept@[a] == before[a]);
                    }
                }
                assert forall|b: int|
                    0 <= b < k + 1 && expected_junction(ready, #[trigger] candidates@[b]) implies exists|a: int|
                    0 <= a < kept@.len() && kept@[a].1 == candidates@[b] by {
                    if b == k {
                        assert(kept@[before.len() as int].1 == candidates@[b]);
                    } else {
                        let a = choose|a: int| 0 <= a < before.len() && before[a].1 == candidates@[b];
                        assert(kept@[a] == before[a]);
                    }
                }
                let nk = entry_keys(kept@);
                assert forall|i: int, j: int| 0 <= i < j < nk.len() implies (#[trigger] nk[i]).key_lt(
                    #[trigger] nk[j],
                ) by {
                    if j == before.len() {
                        let b = choose|b: int| 0 <= b < k && candidates@[b] == before[i].1;
                        assert(nk[i] == before[i].0);
                        assert(nk[j] == c.id);
                    } else {
                        assert(nk[i] == entry_keys(before)[i]);
                        assert(nk[j] == entry_keys(before)[j]);
                    }
                }
            }
        } else {
            proof {
                assert forall|b: int|
                    0 <= b < k + 1 && expected_junction(ready, #[trigger] candidates@[b]) implies exists|a: int|
                    0 <= a < kept@.len() && kept@[a].1 == candidates@[b] by {
                    if b == k {
                        reveal(expected_junction);
                        assert(!has_authoritative_area(c.hit, c.layer, ready.occlusions_view()));
                    }
                }
            }
        }
        k = k + 1;
    }
    proof {
        assert forall|c: SplitterJunctionCandidate| expected_junction(ready, c) implies exists|a: int|
            0 <= a < kept@.len() && (#[trigger] kept@[a]).1 == c by {
            reveal(expected_junction);
            let key = choose|key: JunctionKey| candidate_at(s, key) == Some(c) && id_unique(s, key);
            assert(candidate_at(s, key) is Some);
            assert(candidates@.contains(c));
            let b = choose|b: int| 0 <= b < candidates@.len() && candidates@[b] == c;
            assert(expected_junction(ready, candidates@[b]));
        }
    }
    KeyMap::from_canonical(kept)
}

/// Rejects a plan whose junction records are not exactly the derived
/// junctions of its operable splitters that keep authoritative area.
pub fn validate_splitter_junction_records(ready: &PresentationPlan) -> (r: Result<
    (),
    SceneBuildError,
>)
    ensures
        r == match junction_records_error(ready) {
            Some(error) => Err(error),
            None => Ok(()),
        },
{
    let expected = expected_junction_map(ready);
    let ghost entries = expected.view_seq();
    let ghost values = entries.map_values(|e: (SplitterJunctionId, SplitterJunctionCandidate)| e.1);
    proof {
        assert(values.no_duplicates()) by {
            assert forall|i: int, j: int|
                0 <= i < values.len() && 0 <= j < values.len() && i != j implies values[i] != values[j] by {
                lemma_canonical_distinct(entry_keys(entries), i, j);
                assert(entry_keys(entries)[i] == entries[i].0);
                assert(entry_keys(entries)[j] == entries[j].0);
            }
        }
        values.unique_seq_to_set();
        assert(values.to_set() =~= expected_junctions(ready)) by {
            assert forall|c: SplitterJunctionCandidate| #[trigger] values.to_set().contains(c) <==> expected_junction(ready, c) by {
                if values.to_set().contains(c) {
                    let a = choose|a: int| 0 <= a < values.len() && values[a] == c;
                    assert(entries[a].1 == c);
                }
                if expected_junction(ready, c) {
                    let a = choose|a: int| 0 <= a < entries.len() && (#[trigger] entries[a]).1 == c;
                    assert(values[a] == c);
                }
            }
        }
    }
    let records = ready.splitter_junction_records();
    let surface = ready.surface();
    if records.len() != expected.len() {
        return Err(SceneBuildError::SplitterJunctionRecordSetMismatch { surface });
    }
    let mut i: usize = 0;
    while i < records.len()
        invariant
            i <= records@.len(),
            records@ == ready.junctions_view(),
            surface == ready.surface(),
            entries == expected.view_seq(),
            records@.len() == expected_junctions(ready).len(),
            forall|a: int| 0 <= a < entries.len() ==> (#[trigger] entries[a]).0 == entries[a].1.id,
            forall|a: int| 0 <= a < entries.len() ==> expected_junction(ready, (#[trigger] entries[a]).1),
            forall|c: SplitterJunctionCandidate|
                expected_junction(ready, c) ==> exists|a: int|
                    0 <= a < entries.len() && (#[trigger] entries[a]).1 == c,
            canonical(entry_keys(entries)),
            forall|j: int| 0 <= j < i ==> junction_record_valid(ready, #[trigger] records@[j]),
        decreases records@.len() - i,
    {
        let record = records[i];
        let id = record.id();
        let valid = match expected.get(&id) {
            None => false,
            Some(junction) => junction.layer == record.layer() && record.hit().rect.is_positive()
                && record.hit().rect == junction.hit,
        };
        proof {
            if expected.has(id) {
                let v = expected.value_of(id);
                assert forall|x: int, y: int|
                    0 <= x < entries.len() && 0 <= y < entries.len() && (#[trigger] entries[x]).0
                        == (#[trigger] entries[y]).0 implies x == y by {
                    if x != y {
                        lemma_canonical_distinct(entry_keys(entries), x, y);
                        assert(entry_keys(entries)[x] == entries[x].0);
                        assert(entry_keys(entries)[y] == entries[y].0);
                    }
                }
                assert(entry_keys(entries).contains(id));
                let w = choose|w: int| 0 <= w < entries.len() && entry_keys(entries)[w] == id;
                assert(entries[w].0 == id);
                assert forall|c: SplitterJunctionCandidate|
                    expected_junction(ready, c) && junction_record_matches(record, c) implies c == v by {
                    let a = choose|a: int| 0 <= a < entries.len() && (#[trigger] entries[a]).1 == c;
                    assert(entries[a].0 == id);
                }
                if valid {
                    assert(junction_record_matches(record, v));
                    assert(expected_junction(ready, v));
                }
            } else {
                assert forall|c: SplitterJunctionCandidate|
                    expected_junction(ready, c) implies !junction_record_matches(record, c) by {
                    let a = choose|a: int| 0 <= a < entries.len() && (#[trigger] entries[a]).1 == c;
                    assert(entry_keys(entries)[a] == entries[a].0);
                    assert(entry_keys(entries).contains(c.id));
                }
            }
            assert(valid == junction_record_valid(ready, record));
        }
        if !valid {
            proof {
                assert(first_invalid_junction(ready, i as int));
                lemma_first_invalid_unique(ready, i as int);
            }
            return Err(SceneBuildError::InvalidSplitterJunctionRecord { surface, id });
        }
        i = i + 1;
    }
    proof {
        assert forall|j: int| !#[trigger] first_invalid_junction(ready, j) by {
            if first_invalid_junction(ready, j) {
                assert(junction_record_valid(ready, records@[j]));
            }
        }
    }
    Ok(())
}

} // verus!
