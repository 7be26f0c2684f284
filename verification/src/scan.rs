//! The scan of the ranked census for nations above the endorsement cap.
//!
//! The scan reads the census page by page, best rank first, and keeps the
//! nations whose score lies above the cap until it has as many as it was
//! asked for. It makes no request itself: `Scanner::next_action` says which
//! page is wanted, the caller reads it, and `Scanner::accept` takes what came
//! back. `scan` does the same over answers that are already at hand.

use vstd::prelude::*;
use crate::census::{Nation, RankedNation, names_of, contains_name};
use crate::error::FetchError;
use crate::scan_laws::{lemma_stopped_walk_is_final, lemma_walk_sound};
use crate::violators::ViolatorSet;

verus! {

/// What a scan is asked to do.
pub struct ScanRules {
    /// A nation is over the cap when its score is greater than this.
    pub endocap: u64,
    /// Number of nations the scan collects at most.
    pub target: nat,
    /// Number of ranks from the start of one page to the start of the next.
    pub page_size: nat,
    /// Names that are never collected, whatever their score.
    pub ignore: Set<Seq<char>>,
}

/// Whether the scan counts `nation` as over the cap.
pub open spec fn is_violator(nation: Nation, rules: ScanRules) -> bool {
    nation.score > rules.endocap && !rules.ignore.contains(nation.name)
}

/// `collected` after the scan has looked at `nation`: the nation is added at
/// the end when it is over the cap and its name is not yet there.
pub open spec fn promote(collected: Seq<Nation>, nation: Nation, rules: ScanRules) -> Seq<Nation> {
    if is_violator(nation, rules) && !names_of(collected).contains(nation.name) {
        collected.push(nation)
    } else {
        collected
    }
}

/// How far a walk along census lines has come.
pub struct Walk {
    /// The nations collected so far, in the order in which they were found.
    pub collected: Seq<Nation>,
    /// Whether the walk met a nation with a score of zero.
    pub reached_zero: bool,
}

impl Walk {
    /// A walk that has stopped looks at no further line.
    pub open spec fn stopped(self, rules: ScanRules) -> bool {
        self.reached_zero || self.collected.len() >= rules.target
    }

    /// The walk after the next line. A stopped walk stays as it is. A score
    /// of zero marks the end of the ranked nations and stops the walk. Any
    /// other nation is collected if it qualifies.
    pub open spec fn step(self, nation: Nation, rules: ScanRules) -> Walk {
        if self.stopped(rules) {
            self
        } else if nation.score == 0 {
            Walk { collected: self.collected, reached_zero: true }
        } else {
            Walk { collected: promote(self.collected, nation, rules), reached_zero: false }
        }
    }
}

/// The walk along the lines of `page`, first line first, that starts with
/// `collected` in hand.
pub open spec fn walk(collected: Seq<Nation>, page: Seq<Nation>, rules: ScanRules) -> Walk
    decreases page.len(),
{
    if page.len() == 0 {
        Walk { collected, reached_zero: false }
    } else {
        walk(collected, page.drop_last(), rules).step(page.last(), rules)
    }
}

/// What the scan wants next.
#[derive(Clone, Copy, Debug, PartialEq, Eq, Structural)]
pub enum ScanAction {
    /// Read the page of the census that starts at this rank.
    Fetch { start_rank: u64 },
    /// Nothing: the scan is over.
    Finished,
}

/// What a scan hands out as a mathematical value.
pub enum OutcomeModel {
    Unfinished,
    Found(Seq<Seq<char>>),
    Failed(FetchError),
}

/// What a scan hands out.
#[derive(Debug, PartialEq, Eq)]
pub enum ScanOutcome {
    /// Nothing yet: the scan is not over.
    Unfinished,
    /// The names of the nations over the cap, in the order in which they
    /// were found. There may be fewer than the target.
    Found(ViolatorSet),
    /// The failure that ended the scan. Nothing of what was collected
    /// before it is handed out.
    Failed(FetchError),
}

impl View for ScanOutcome {
    type V = OutcomeModel;

    open spec fn view(&self) -> OutcomeModel {
        match self {
            ScanOutcome::Unfinished => OutcomeModel::Unfinished,
            ScanOutcome::Found(set) => OutcomeModel::Found(set@),
            ScanOutcome::Failed(error) => OutcomeModel::Failed(*error),
        }
    }
}

/// The state of a scan.
pub struct ScanModel {
    pub rules: ScanRules,
    /// Number of ranks that lie before the page wanted next.
    pub offset: nat,
    /// The nations collected so far, in the order in which they were found.
    pub collected: Seq<Nation>,
    /// Whether the census has no further nation worth reading.
    pub exhausted: bool,
    /// The failure that ended the scan, if one did.
    pub failure: Option<FetchError>,
}

impl ScanModel {
    /// The scan before its first page.
    pub open spec fn start(rules: ScanRules) -> ScanModel {
        ScanModel { rules, offset: 0, collected: Seq::empty(), exhausted: false, failure: None }
    }

    /// A scan is over when a read failed, when the census is exhausted, or
    /// when the target is met.
    pub open spec fn finished(self) -> bool {
        self.failure is Some || self.exhausted || self.collected.len() >= self.rules.target
    }

    /// What the scan wants next: the page behind the ranks read so far, or
    /// nothing when it is over.
    pub open spec fn next_action(self) -> ScanAction {
        if self.finished() || self.offset >= u64::MAX {
            ScanAction::Finished
        } else {
            ScanAction::Fetch { start_rank: (self.offset + 1) as u64 }
        }
    }

    /// The scan after the page it asked for has come. A finished scan stays
    /// as it is. Otherwise the page is walked, and the census counts as
    /// exhausted when the page is empty, when the walk met a score of zero,
    /// or when the next page would start beyond the ranks that 64 bits can
    /// number.
    pub open spec fn on_page(self, page: Seq<Nation>) -> ScanModel {
        if self.finished() {
            self
        } else {
            let w = walk(self.collected, page, self.rules);
            let next = self.offset + self.rules.page_size;
            ScanModel {
                rules: self.rules,
                offset: if next < u64::MAX {
                    next
                } else {
                    self.offset
                },
                collected: w.collected,
                exhausted: page.len() == 0 || w.reached_zero || next >= u64::MAX,
                failure: None,
            }
        }
    }

    /// The scan after the read it asked for has failed: the first failure
    /// ends it. A finished scan stays as it is.
    pub open spec fn on_failure(self, error: FetchError) -> ScanModel {
        if self.finished() {
            self
        } else {
            ScanModel { failure: Some(error), ..self }
        }
    }

    /// The scan after the answer to the request it asked for, a page or a
    /// failure.
    pub open spec fn accept(self, outcome: Result<Seq<Nation>, FetchError>) -> ScanModel {
        match outcome {
            Ok(page) => self.on_page(page),
            Err(error) => self.on_failure(error),
        }
    }

    /// The scan after the answers `outcomes` have come in, first answer
    /// first.
    pub open spec fn run(self, outcomes: Seq<Result<Seq<Nation>, FetchError>>) -> ScanModel
        decreases outcomes.len(),
    {
        if outcomes.len() == 0 {
            self
        } else {
            self.run(outcomes.drop_last()).accept(outcomes.last())
        }
    }

    /// What the scan hands out. A scan that a failure ended hands out the
    /// failure and nothing of what it had collected. Any other scan that is
    /// over hands out the names collected, in the order in which they were
    /// found. A scan that is not over hands out nothing yet.
    pub open spec fn outcome(self) -> OutcomeModel {
        match self.failure {
            Some(error) => OutcomeModel::Failed(error),
            None => if self.finished() {
                OutcomeModel::Found(names_of(self.collected))
            } else {
                OutcomeModel::Unfinished
            },
        }
    }

    /// What holds of every scan: it has collected no more nations than the
    /// target, each of them is over the cap and not to be ignored, and no
    /// name is there twice.
    pub open spec fn sound(self) -> bool {
        &&& self.collected.len() <= self.rules.target
        &&& forall|i: int|
            0 <= i < self.collected.len() ==> is_violator(#[trigger] self.collected[i], self.rules)
        &&& names_of(self.collected).no_duplicates()
        &&& self.offset < u64::MAX
    }
}

/// Whether the ranks along `nations` never fall.
pub open spec fn ranks_ascend(nations: Seq<Nation>) -> bool {
    forall|i: int, j: int|
        0 <= i <= j < nations.len() ==> (#[trigger] nations[i]).rank <= (#[trigger] nations[j]).rank
}

/// All the lines of the pages among `outcomes`, first page first.
pub open spec fn listed(outcomes: Seq<Result<Seq<Nation>, FetchError>>) -> Seq<Nation>
    decreases outcomes.len(),
{
    if outcomes.len() == 0 {
        Seq::empty()
    } else {
        match outcomes.last() {
            Ok(page) => listed(outcomes.drop_last()) + page,
            Err(_) => listed(outcomes.drop_last()),
        }
    }
}

/// An answer to a request for a page as a mathematical value.
pub open spec fn outcome_view(outcome: Result<Vec<RankedNation>, FetchError>) -> Result<
    Seq<Nation>,
    FetchError,
> {
    match outcome {
        Ok(page) => Ok(page.deep_view()),
        Err(error) => Err(error),
    }
}

/// What a scan that is over handed out, as a mathematical value.
pub open spec fn outcome_of(result: Result<ViolatorSet, FetchError>) -> OutcomeModel {
    match result {
        Ok(set) => OutcomeModel::Found(set@),
        Err(error) => OutcomeModel::Failed(error),
    }
}

/// Whether one of `nations` bears `name`.
pub fn holds_name(nations: &Vec<RankedNation>, name: &String) -> (found: bool)
    ensures
        found == names_of(nations.deep_view()).contains(name@),
{
    let mut i: usize = 0;
    while i < nations.len()
        invariant
            i <= nations.len(),
            forall|j: int| 0 <= j < i ==> names_of(nations.deep_view())[j] != name@,
        decreases nations.len() - i,
    {
        if nations[i].name == *name {
            assert(names_of(nations.deep_view())[i as int] == name@);
            return true;
        }
        i += 1;
    }
    false
}

/// A scan in progress.
pub struct Scanner {
    endocap: u64,
    target: usize,
    page_size: usize,
    ignore: Vec<String>,
    offset: u64,
    collected: Vec<RankedNation>,
    exhausted: bool,
    failure: Option<FetchError>,
}

impl View for Scanner {
    type V = ScanModel;

    closed spec fn view(&self) -> ScanModel {
        ScanModel {
            rules: ScanRules {
                endocap: self.endocap,
                target: self.target as nat,
                page_size: self.page_size as nat,
                ignore: self.ignore.deep_view().to_set(),
            },
            offset: self.offset as nat,
            collected: self.collected.deep_view(),
            exhausted: self.exhausted,
            failure: self.failure,
        }
    }
}

impl Scanner {
    #[verifier::type_invariant]
    spec fn inv(self) -> bool {
        self@.sound()
    }

    /// A scan that has read nothing yet. It collects up to `target` nations
    /// with a score above `endocap`, leaves out those named in `ignore`, and
    /// reads the census in pages of `page_size` ranks.
    pub fn new(endocap: u64, ignore: Vec<String>, target: usize, page_size: usize) -> (scanner:
        Scanner)
        ensures
            scanner@ == ScanModel::start(
                ScanRules {
                    endocap,
                    target: target as nat,
                    page_size: page_size as nat,
                    ignore: ignore.deep_view().to_set(),
                },
            ),
    {
        let collected: Vec<RankedNation> = Vec::new();
        assert(collected.deep_view() =~= Seq::<Nation>::empty());
        Scanner {
            endocap,
            target,
            page_size,
            ignore,
            offset: 0,
            collected,
            exhausted: false,
            failure: None,
        }
    }

    /// Whether the scan is over.
    pub fn is_finished(&self) -> (finished: bool)
        ensures
            finished == self@.finished(),
            self@.sound(),
    {
        proof {
            use_type_invariant(self);
        }
        self.failure.is_some() || self.exhausted || self.collected.len() >= self.target
    }

    /// The page to read next, or that the scan is over.
    pub fn next_action(&self) -> (action: ScanAction)
        ensures
            action == self@.next_action(),
            self@.sound(),
            (action == ScanAction::Finished) == self@.finished(),
    {
        proof {
            use_type_invariant(self);
        }
        if self.is_finished() {
            ScanAction::Finished
        } else {
            ScanAction::Fetch { start_rank: self.offset + 1 }
        }
    }

    /// The nations collected so far, in the order in which they were found.
    pub fn collected(&self) -> (nations: &Vec<RankedNation>)
        ensures
            nations.deep_view() == self@.collected,
            self@.sound(),
    {
        proof {
            use_type_invariant(self);
        }
        &self.collected
    }

    /// Takes the page that the scan asked for.
    pub fn on_page(&mut self, page: &Vec<RankedNation>)
        ensures
            final(self)@ == old(self)@.on_page(page.deep_view()),
            final(self)@.sound(),
    {
        proof {
            use_type_invariant(&*self);
        }
        if self.is_finished() {
            return ;
        }
        let ghost rules = self@.rules;
        let ghost start = self@.collected;
        let ghost lines = page.deep_view();
        let mut collected: Vec<RankedNation> = Vec::new();
        core::mem::swap(&mut self.collected, &mut collected);
        let mut reached_zero = false;
        let mut i: usize = 0;
        assert(lines.take(0) =~= Seq::<Nation>::empty());
        while i < page.len() && !reached_zero && collected.len() < self.target
            invariant
                i <= page.len(),
                lines == page.deep_view(),
                rules == self@.rules,
                rules.endocap == self.endocap,
                rules.target == self.target,
                rules.ignore == self.ignore.deep_view().to_set(),
                start.len() <= rules.target,
                forall|k: int| 0 <= k < start.len() ==> is_violator(#[trigger] start[k], rules),
                names_of(start).no_duplicates(),
                walk(start, lines.take(i as int), rules) == (Walk {
                    collected: collected.deep_view(),
                    reached_zero,
                }),
            decreases page.len() - i,
        {
            let nation = &page[i];
            let ghost before = collected.deep_view();
            proof {
                assert(lines.take(i + 1).drop_last() =~= lines.take(i as int));
                assert(lines.take(i + 1).last() == nation@);
            }
            if nation.score == 0 {
                reached_zero = true;
            } else if nation.score as u64 > self.endocap && !contains_name(
                &self.ignore,
                &nation.name,
            ) && !holds_name(&collected, &nation.name) {
                collected.push(nation.duplicate());
                assert(collected.deep_view() =~= before.push(nation@));
            }
            i += 1;
        }
        proof {
            if i < page.len() {
                lemma_stopped_walk_is_final(start, lines, rules, i as int);
            } else {
                assert(lines.take(i as int) =~= lines);
            }
            lemma_walk_sound(start, lines, rules);
        }
        core::mem::swap(&mut self.collected, &mut collected);
        let empty = page.len() == 0;
        if self.page_size as u64 >= u64::MAX - self.offset {
            self.exhausted = true;
        } else {
            self.offset = self.offset + self.page_size as u64;
            self.exhausted = empty || reached_zero;
        }
    }

    /// Takes the failure of the read that the scan asked for.
    pub fn on_failure(&mut self, error: FetchError)
        ensures
            final(self)@ == old(self)@.on_failure(error),
            final(self)@.sound(),
    {
        proof {
            use_type_invariant(&*self);
        }
        if !self.is_finished() {
            self.failure = Some(error);
        }
    }

    /// Takes the answer to the request that the scan asked for, and says
    /// what it wants next.
    pub fn accept(&mut self, outcome: &Result<Vec<RankedNation>, FetchError>) -> (action:
        ScanAction)
        ensures
            final(self)@ == old(self)@.accept(outcome_view(*outcome)),
            final(self)@.sound(),
            action == final(self)@.next_action(),
    {
        match outcome {
            Ok(page) => self.on_page(page),
            Err(error) => self.on_failure(*error),
        }
        self.next_action()
    }

    /// Hands out what the scan has to hand out: the failure if a read
    /// failed, the names collected if the scan is over without one, and
    /// nothing if it is not over.
    pub fn finish(self) -> (outcome: ScanOutcome)
        ensures
            outcome@ == self@.outcome(),
            self@.sound(),
    {
        proof {
            use_type_invariant(&self);
        }
        if !self.is_finished() {
            return ScanOutcome::Unfinished;
        }
        match self.failure {
            Some(error) => ScanOutcome::Failed(error),
            None => {
                let ghost names = names_of(self.collected.deep_view());
                let mut set = ViolatorSet::new();
                let mut i: usize = 0;
                assert(names.take(0) =~= Seq::<Seq<char>>::empty());
                while i < self.collected.len()
                    invariant
                        i <= self.collected.len(),
                        names == names_of(self.collected.deep_view()),
                        names.no_duplicates(),
                        set@ == names.take(i as int),
                    decreases self.collected.len() - i,
                {
                    let name = self.collected[i].name.clone();
                    assert(name@ == names[i as int]);
                    assert(!names.take(i as int).contains(name@));
                    set.insert(name);
                    assert(names.take(i + 1) =~= names.take(i as int).push(names[i as int]));
                    i += 1;
                }
                assert(names.take(i as int) =~= names);
                ScanOutcome::Found(set)
            },
        }
    }
}

/// Scans over answers that are already at hand: `outcomes` holds, in order,
/// what each request for the next page gave. Answers that come after the
/// scan is over are not looked at. Where the answers end before the scan is
/// over, the census counts as exhausted there, as after an empty page.
pub fn scan(
    endocap: u64,
    ignore: Vec<String>,
    target: usize,
    page_size: usize,
    outcomes: &Vec<Result<Vec<RankedNation>, FetchError>>,
) -> (result: Result<ViolatorSet, FetchError>)
    ensures
        outcome_of(result) == ScanModel::start(
            ScanRules {
                endocap,
                target: target as nat,
                page_size: page_size as nat,
                ignore: ignore.deep_view().to_set(),
            },
        ).run(outcomes@.map_values(|o| outcome_view(o))).on_page(Seq::empty()).outcome(),
{
    let ghost rules = ScanRules {
        endocap,
        target: target as nat,
        page_size: page_size as nat,
        ignore: ignore.deep_view().to_set(),
    };
    let ghost answers = outcomes@.map_values(|o| outcome_view(o));
    let mut scanner = Scanner::new(endocap, ignore, target, page_size);
    let mut i: usize = 0;
    assert(answers.take(0) =~= Seq::empty());
    while i < outcomes.len()
        invariant
            i <= outcomes.len(),
            answers == outcomes@.map_values(|o| outcome_view(o)),
            scanner@ == ScanModel::start(rules).run(answers.take(i as int)),
        decreases outcomes.len() - i,
    {
        proof {
            assert(answers.take(i + 1).drop_last() =~= answers.take(i as int));
            assert(answers.take(i + 1).last() == outcome_view(outcomes@[i as int]));
        }
        scanner.accept(&outcomes[i]);
        i += 1;
    }
    assert(answers.take(i as int) =~= answers);
    let last: Vec<RankedNation> = Vec::new();
    assert(last.deep_view() =~= Seq::<Nation>::empty());
    scanner.on_page(&last);
    match scanner.finish() {
        ScanOutcome::Found(set) => Ok(set),
        ScanOutcome::Failed(error) => Err(error),
        ScanOutcome::Unfinished => unreached(),
    }
}

} // verus!
