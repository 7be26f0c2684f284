//! What holds of every resolution, whatever the lookups answer.

use vstd::prelude::*;
use crate::error::FetchError;
use crate::resolve::{ResolveModel, endorsed_among, record_of};

verus! {

/// A nation is among the endorsed violators exactly when it is a violator
/// and is endorsed. So the endorsed violators are, as a set, what the
/// violators and the endorsements have in common; and they hold no name
/// twice where the violators hold none twice.
pub proof fn lemma_endorsed_is_intersection(
    violators: Seq<Seq<char>>,
    endorsements: Seq<Seq<char>>,
)
    ensures
        forall|name: Seq<char>|
            #[trigger] endorsed_among(violators, endorsements).contains(name) <==> (
            violators.contains(name) && endorsements.contains(name)),
        endorsed_among(violators, endorsements).to_set() == violators.to_set().intersect(
            endorsements.to_set(),
        ),
        endorsed_among(violators, endorsements).len() <= violators.len(),
        violators.no_duplicates() ==> endorsed_among(violators, endorsements).no_duplicates(),
    decreases violators.len(),
{
    let endorsed = endorsed_among(violators, endorsements);
    if violators.len() > 0 {
        let front = violators.drop_last();
        let last = violators.last();
        let kept = endorsed_among(front, endorsements);
        lemma_endorsed_is_intersection(front, endorsements);
        assert forall|name: Seq<char>| #[trigger]
            endorsed.contains(name) <==> (violators.contains(name) && endorsements.contains(
                name,
            )) by {
            if endorsed.contains(name) {
                let i = choose|i: int| 0 <= i < endorsed.len() && endorsed[i] == name;
                if i < kept.len() {
                    assert(kept[i] == name);
                    assert(kept.contains(name));
                    let k = choose|k: int| 0 <= k < front.len() && front[k] == name;
                    assert(violators[k] == name);
                } else {
                    assert(violators[violators.len() - 1] == name);
                }
            }
            if violators.contains(name) && endorsements.contains(name) {
                let k = choose|k: int| 0 <= k < violators.len() && violators[k] == name;
                if k < front.len() {
                    assert(front[k] == name);
                    assert(front.contains(name));
                    assert(kept.contains(name));
                    let i = choose|i: int| 0 <= i < kept.len() && kept[i] == name;
                    assert(endorsed[i] == name);
                } else {
                    assert(endorsed[endorsed.len() - 1] == name);
                }
            }
        }
        if violators.no_duplicates() {
            assert forall|i: int, j: int|
                0 <= i < front.len() && 0 <= j < front.len() && i != j implies front[i]
                != front[j] by {
                assert(front[i] == violators[i]);
                assert(front[j] == violators[j]);
            }
            if endorsed.len() > kept.len() {
                if kept.contains(last) {
                    let k = choose|k: int| 0 <= k < front.len() && front[k] == last;
                    assert(violators[k] == violators[violators.len() - 1]);
                }
                assert forall|i: int, j: int|
                    0 <= i < endorsed.len() && 0 <= j < endorsed.len() && i != j implies endorsed[i]
                    != endorsed[j] by {
                    if i < kept.len() && j < kept.len() {
                        assert(endorsed[i] == kept[i] && endorsed[j] == kept[j]);
                    } else if i < kept.len() {
                        assert(kept.contains(endorsed[i]));
                    } else {
                        assert(kept.contains(endorsed[j]));
                    }
                }
            }
        }
    }
    assert(endorsed.to_set() =~= violators.to_set().intersect(endorsements.to_set()));
}

/// A sound resolution is sound after the next answer.
pub proof fn lemma_accept_keeps_sound(
    resolution: ResolveModel,
    outcome: Result<Seq<Seq<char>>, FetchError>,
)
    requires
        resolution.sound(),
    ensures
        resolution.accept(outcome).sound(),
{
    let after = resolution.accept(outcome);
    if !resolution.done() {
        let place = resolution.records.len() as int;
        match outcome {
            Ok(endorsements) => {
                lemma_endorsed_is_intersection(resolution.violators, endorsements);
            },
            Err(_) => {},
        }
        assert forall|i: int| 0 <= i < after.records.len() implies (
        #[trigger] after.records[i]).endorser == after.members[i] by {
            if i < place {
                assert(after.records[i] == resolution.records[i]);
            }
        }
        assert forall|i: int, name: Seq<char>|
            0 <= i < after.records.len() && (#[trigger] after.records[i]).endorsed_violators.contains(
                name,
            ) implies #[trigger] after.violators.contains(name) by {
            if i < place {
                assert(after.records[i] == resolution.records[i]);
            }
        }
    }
}

/// After any answers, the members looked up are the first members, as many
/// as there were answers or members, whichever are fewer; and the record of
/// each is the record of that member for its own answer.
pub proof fn lemma_records_follow_members(
    violators: Seq<Seq<char>>,
    members: Seq<Seq<char>>,
    outcomes: Seq<Result<Seq<Seq<char>>, FetchError>>,
)
    ensures
        ResolveModel::start(violators, members).run(outcomes).violators == violators,
        ResolveModel::start(violators, members).run(outcomes).members == members,
        ResolveModel::start(violators, members).run(outcomes).records.len() == if outcomes.len()
            <= members.len() {
            outcomes.len()
        } else {
            members.len()
        },
        forall|i: int|
            0 <= i < ResolveModel::start(violators, members).run(outcomes).records.len()
                ==> #[trigger] ResolveModel::start(violators, members).run(outcomes).records[i]
                == record_of(members[i], outcomes[i], violators),
    decreases outcomes.len(),
{
    if outcomes.len() > 0 {
        lemma_records_follow_members(violators, members, outcomes.drop_last());
        let before = ResolveModel::start(violators, members).run(outcomes.drop_last());
        let after = ResolveModel::start(violators, members).run(outcomes);
        assert forall|i: int| 0 <= i < after.records.len() implies #[trigger] after.records[i]
            == record_of(members[i], outcomes[i], violators) by {
            if i < before.records.len() {
                assert(after.records[i] == before.records[i]);
                assert(outcomes.drop_last()[i] == outcomes[i]);
            }
        }
    }
}

/// Once every member has had its answer, there is one record for each
/// member, in the order of the members, and each holds only violators.
pub proof fn lemma_resolution_is_complete(
    violators: Seq<Seq<char>>,
    members: Seq<Seq<char>>,
    outcomes: Seq<Result<Seq<Seq<char>>, FetchError>>,
)
    requires
        outcomes.len() >= members.len(),
    ensures
        ResolveModel::start(violators, members).run(outcomes).done(),
        ResolveModel::start(violators, members).run(outcomes).records.len() == members.len(),
        forall|i: int|
            0 <= i < members.len() ==> (#[trigger] ResolveModel::start(violators, members).run(
                outcomes,
            ).records[i]).endorser == members[i],
        forall|i: int, name: Seq<char>|
            0 <= i < members.len() && (#[trigger] ResolveModel::start(violators, members).run(
                outcomes,
            ).records[i]).endorsed_violators.contains(name) ==> #[trigger] violators.contains(name),
{
    lemma_records_follow_members(violators, members, outcomes);
    let records = ResolveModel::start(violators, members).run(outcomes).records;
    assert forall|i: int, name: Seq<char>|
        0 <= i < members.len() && (#[trigger] records[i]).endorsed_violators.contains(
            name,
        ) implies #[trigger] violators.contains(name) by {
        match outcomes[i] {
            Ok(endorsements) => {
                lemma_endorsed_is_intersection(violators, endorsements);
            },
            Err(_) => {},
        }
    }
}

/// The answer to one member's lookup touches no record but that member's:
/// two runs of answers that differ at one place only give the same record
/// for every other member.
pub proof fn lemma_failure_is_contained(
    violators: Seq<Seq<char>>,
    members: Seq<Seq<char>>,
    outcomes: Seq<Result<Seq<Seq<char>>, FetchError>>,
    place: int,
    other: Result<Seq<Seq<char>>, FetchError>,
)
    requires
        0 <= place < outcomes.len(),
    ensures
        ResolveModel::start(violators, members).run(outcomes.update(place, other)).records.len()
            == ResolveModel::start(violators, members).run(outcomes).records.len(),
        forall|i: int|
            0 <= i < ResolveModel::start(violators, members).run(outcomes).records.len() && i
                != place ==> #[trigger] ResolveModel::start(violators, members).run(
                outcomes.update(place, other),
            ).records[i] == ResolveModel::start(violators, members).run(outcomes).records[i],
{
    lemma_records_follow_members(violators, members, outcomes);
    lemma_records_follow_members(violators, members, outcomes.update(place, other));
}

} // verus!
