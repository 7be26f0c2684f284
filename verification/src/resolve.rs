//! Which of the nations over the cap each member of the region endorses.
//!
//! The resolver goes through the members of the region in the order in
//! which it was given them. It makes no request itself:
//! `Resolver::next_member` names the member to look up, the caller reads
//! that member's endorsements, and `Resolver::accept` takes what came back.
//! A lookup that fails costs only the record of its own member. `resolve`
//! does the same over answers that are already at hand.

use vstd::prelude::*;
use crate::error::FetchError;
use crate::violators::ViolatorSet;
use crate::census::contains_name;
use crate::resolve_laws::lemma_accept_keeps_sound;

verus! {

/// What one member of the region endorses among the nations over the cap.
#[derive(Clone, Debug, PartialEq, Eq)]
pub struct EndorsementRecord {
    /// The member.
    pub endorser: String,
    /// The nations over the cap that the member endorses, in the order of
    /// the violator set. Empty where the lookup failed.
    pub endorsed_violators: Vec<String>,
    /// Why the member's endorsements could not be read, if they could not.
    pub failure: Option<FetchError>,
}

/// A record as a mathematical value.
pub struct RecordModel {
    pub endorser: Seq<char>,
    pub endorsed_violators: Seq<Seq<char>>,
    pub failure: Option<FetchError>,
}

impl View for EndorsementRecord {
    type V = RecordModel;

    open spec fn view(&self) -> RecordModel {
        RecordModel {
            endorser: self.endorser@,
            endorsed_violators: self.endorsed_violators.deep_view(),
            failure: self.failure,
        }
    }
}

impl DeepView for EndorsementRecord {
    type V = RecordModel;

    open spec fn deep_view(&self) -> RecordModel {
        self@
    }
}

impl EndorsementRecord {
    /// Whether the member's endorsements could not be read.
    pub fn is_degraded(&self) -> (degraded: bool)
        ensures
            degraded == (self@.failure is Some),
    {
        self.failure.is_some()
    }
}

/// Those of `violators` that are among `endorsements`, in the order of
/// `violators`.
pub open spec fn endorsed_among(violators: Seq<Seq<char>>, endorsements: Seq<Seq<char>>) -> Seq<
    Seq<char>,
>
    decreases violators.len(),
{
    if violators.len() == 0 {
        Seq::empty()
    } else {
        let front = endorsed_among(violators.drop_last(), endorsements);
        if endorsements.contains(violators.last()) {
            front.push(violators.last())
        } else {
            front
        }
    }
}

/// The record of `member` for the answer that its lookup gave. A lookup that
/// failed gives a record without endorsements that bears the failure.
pub open spec fn record_of(
    member: Seq<char>,
    outcome: Result<Seq<Seq<char>>, FetchError>,
    violators: Seq<Seq<char>>,
) -> RecordModel {
    match outcome {
        Ok(endorsements) => RecordModel {
            endorser: member,
            endorsed_violators: endorsed_among(violators, endorsements),
            failure: None,
        },
        Err(error) => RecordModel {
            endorser: member,
            endorsed_violators: Seq::empty(),
            failure: Some(error),
        },
    }
}

/// The answer to a lookup as a mathematical value.
pub open spec fn lookup_view(outcome: Result<Vec<String>, FetchError>) -> Result<
    Seq<Seq<char>>,
    FetchError,
> {
    match outcome {
        Ok(endorsements) => Ok(endorsements.deep_view()),
        Err(error) => Err(error),
    }
}

/// The state of a resolution.
pub struct ResolveModel {
    /// The nations over the cap.
    pub violators: Seq<Seq<char>>,
    /// The members of the region, in the order in which they are looked up.
    pub members: Seq<Seq<char>>,
    /// The records of the members looked up so far, in the same order.
    pub records: Seq<RecordModel>,
}

impl ResolveModel {
    /// The resolution before its first lookup.
    pub open spec fn start(violators: Seq<Seq<char>>, members: Seq<Seq<char>>) -> ResolveModel {
        ResolveModel { violators, members, records: Seq::empty() }
    }

    /// A resolution is done when every member has its record.
    pub open spec fn done(self) -> bool {
        self.records.len() >= self.members.len()
    }

    /// The member to look up next.
    pub open spec fn next_member(self) -> Option<Seq<char>> {
        if self.done() {
            None
        } else {
            Some(self.members[self.records.len() as int])
        }
    }

    /// The resolution after the answer to the lookup it asked for: the
    /// record of that member comes behind the others. A resolution that is
    /// done stays as it is.
    pub open spec fn accept(self, outcome: Result<Seq<Seq<char>>, FetchError>) -> ResolveModel {
        if self.done() {
            self
        } else {
            ResolveModel {
                violators: self.violators,
                members: self.members,
                records: self.records.push(
                    record_of(self.members[self.records.len() as int], outcome, self.violators),
                ),
            }
        }
    }

    /// What holds of every resolution: there is a record for each of the
    /// first members and for nobody else, each record bears the name of its
    /// member, and each holds only violators.
    pub open spec fn sound(self) -> bool {
        &&& self.records.len() <= self.members.len()
        &&& forall|i: int|
            0 <= i < self.records.len() ==> (#[trigger] self.records[i]).endorser
                == self.members[i]
        &&& forall|i: int, name: Seq<char>|
            0 <= i < self.records.len() && (#[trigger] self.records[i]).endorsed_violators.contains(
                name,
            ) ==> #[trigger] self.violators.contains(name)
    }

    /// The resolution after the answers `outcomes` have come in, first
    /// answer first.
    pub open spec fn run(self, outcomes: Seq<Result<Seq<Seq<char>>, FetchError>>) -> ResolveModel
        decreases outcomes.len(),
    {
        if outcomes.len() == 0 {
            self
        } else {
            self.run(outcomes.drop_last()).accept(outcomes.last())
        }
    }
}

/// The nations over the cap that are among `endorsements`.
pub fn endorsed_violators(violators: &ViolatorSet, endorsements: &Vec<String>) -> (endorsed: Vec<
    String,
>)
    ensures
        endorsed.deep_view() == endorsed_among(violators@, endorsements.deep_view()),
{
    let names = violators.names();
    let mut endorsed: Vec<String> = Vec::new();
    let mut i: usize = 0;
    assert(names.deep_view().take(0) =~= Seq::<Seq<char>>::empty());
    assert(endorsed.deep_view() =~= Seq::<Seq<char>>::empty());
    while i < names.len()
        invariant
            i <= names.len(),
            names.deep_view() == violators@,
            endorsed.deep_view() == endorsed_among(
                violators@.take(i as int),
                endorsements.deep_view(),
            ),
        decreases names.len() - i,
    {
        let ghost before = endorsed.deep_view();
        proof {
            assert(violators@.take(i + 1).drop_last() =~= violators@.take(i as int));
            assert(violators@.take(i + 1).last() == names[i as int]@);
        }
        if contains_name(endorsements, &names[i]) {
            endorsed.push(names[i].clone());
            assert(endorsed.deep_view() =~= before.push(names[i as int]@));
        }
        i += 1;
    }
    assert(violators@.take(i as int) =~= violators@);
    endorsed
}

/// The record of `member` for the answer that its lookup gave.
pub fn resolve_member(
    violators: &ViolatorSet,
    member: String,
    outcome: &Result<Vec<String>, FetchError>,
) -> (record: EndorsementRecord)
    ensures
        record@ == record_of(member@, lookup_view(*outcome), violators@),
{
    match outcome {
        Ok(endorsements) => EndorsementRecord {
            endorser: member,
            endorsed_violators: endorsed_violators(violators, endorsements),
            failure: None,
        },
        Err(error) => {
            let none: Vec<String> = Vec::new();
            assert(none.deep_view() =~= Seq::<Seq<char>>::empty());
            EndorsementRecord { endorser: member, endorsed_violators: none, failure: Some(*error) }
        },
    }
}

/// A resolution in progress.
pub struct Resolver {
    violators: ViolatorSet,
    members: Vec<String>,
    records: Vec<EndorsementRecord>,
}

impl View for Resolver {
    type V = ResolveModel;

    closed spec fn view(&self) -> ResolveModel {
        ResolveModel {
            violators: self.violators@,
            members: self.members.deep_view(),
            records: self.records.deep_view(),
        }
    }
}

impl Resolver {
    #[verifier::type_invariant]
    spec fn inv(self) -> bool {
        self@.sound()
    }

    /// A resolution of `members` against `violators` that has looked up
    /// nobody yet.
    pub fn new(violators: ViolatorSet, members: Vec<String>) -> (resolver: Resolver)
        ensures
            resolver@ == ResolveModel::start(violators@, members.deep_view()),
            resolver@.sound(),
    {
        let records: Vec<EndorsementRecord> = Vec::new();
        assert(records.deep_view() =~= Seq::<RecordModel>::empty());
        Resolver { violators, members, records }
    }

    /// Whether every member has its record.
    pub fn is_done(&self) -> (done: bool)
        ensures
            done == self@.done(),
            self@.sound(),
    {
        proof {
            use_type_invariant(self);
        }
        self.records.len() >= self.members.len()
    }

    /// The member to look up next, or `None` when every member has its
    /// record.
    pub fn next_member(&self) -> (member: Option<&String>)
        ensures
            member.deep_view() == self@.next_member(),
            self@.sound(),
    {
        proof {
            use_type_invariant(self);
        }
        if self.records.len() < self.members.len() {
            Some(&self.members[self.records.len()])
        } else {
            None
        }
    }

    /// Takes the answer to the lookup of the member that `next_member`
    /// named.
    pub fn accept(&mut self, outcome: &Result<Vec<String>, FetchError>)
        ensures
            final(self)@ == old(self)@.accept(lookup_view(*outcome)),
            final(self)@.sound(),
    {
        proof {
            use_type_invariant(&*self);
            lemma_accept_keeps_sound(self@, lookup_view(*outcome));
        }
        if self.records.len() < self.members.len() {
            let member = self.members[self.records.len()].clone();
            let record = resolve_member(&self.violators, member, outcome);
            let mut records: Vec<EndorsementRecord> = Vec::new();
            core::mem::swap(&mut self.records, &mut records);
            let ghost before = records.deep_view();
            records.push(record);
            assert(records.deep_view() =~= before.push(record@));
            core::mem::swap(&mut self.records, &mut records);
        }
    }

    /// The records of the members looked up so far, in the order of the
    /// members.
    pub fn records(&self) -> (records: &Vec<EndorsementRecord>)
        ensures
            records.deep_view() == self@.records,
            self@.sound(),
    {
        proof {
            use_type_invariant(self);
        }
        &self.records
    }

    /// Ends the resolution and hands out the records of the members looked
    /// up so far.
    pub fn finish(self) -> (records: Vec<EndorsementRecord>)
        ensures
            records.deep_view() == self@.records,
            self@.sound(),
    {
        proof {
            use_type_invariant(&self);
        }
        self.records
    }
}

/// Resolves over answers that are already at hand: `outcomes` holds, in the
/// order of `members`, what the lookup of each member gave. Answers beyond
/// the last member are not looked at; where the answers end before the
/// members do, the members without an answer get no record.
pub fn resolve(
    violators: ViolatorSet,
    members: Vec<String>,
    outcomes: &Vec<Result<Vec<String>, FetchError>>,
) -> (records: Vec<EndorsementRecord>)
    ensures
        records.deep_view() == ResolveModel::start(violators@, members.deep_view()).run(
            outcomes@.map_values(|o| lookup_view(o)),
        ).records,
{
    let ghost begin = ResolveModel::start(violators@, members.deep_view());
    let ghost answers = outcomes@.map_values(|o| lookup_view(o));
    let mut resolver = Resolver::new(violators, members);
    let mut i: usize = 0;
    assert(answers.take(0) =~= Seq::empty());
    while i < outcomes.len()
        invariant
            i <= outcomes.len(),
            answers == outcomes@.map_values(|o| lookup_view(o)),
            resolver@ == begin.run(answers.take(i as int)),
        decreases outcomes.len() - i,
    {
        proof {
            assert(answers.take(i + 1).drop_last() =~= answers.take(i as int));
            assert(answers.take(i + 1).last() == lookup_view(outcomes@[i as int]));
        }
        resolver.accept(&outcomes[i]);
        i += 1;
    }
    assert(answers.take(i as int) =~= answers);
    resolver.finish()
}

} // verus!
