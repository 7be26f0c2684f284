//! What holds of every walk along a page and of every scan, whatever the
//! census answers.

use vstd::prelude::*;
use crate::census::{Nation, names_of};
use crate::error::FetchError;
use crate::scan::{ScanModel, ScanRules, Walk, is_violator, listed, promote, ranks_ascend, walk};

verus! {

/// Whether `front` is the beginning of `whole`.
pub open spec fn begins(whole: Seq<Nation>, front: Seq<Nation>) -> bool {
    front.len() <= whole.len() && forall|i: int| 0 <= i < front.len() ==> whole[i] == front[i]
}

/// Whether `places` names, for each of `part` in turn, a place of `whole`
/// at which it stands, every place behind the one before.
pub open spec fn stands_in_order(part: Seq<Nation>, whole: Seq<Nation>, places: Seq<int>) -> bool {
    &&& places.len() == part.len()
    &&& forall|i: int|
        0 <= i < places.len() ==> 0 <= #[trigger] places[i] < whole.len() && whole[places[i]]
            == part[i]
    &&& forall|i: int, j: int| 0 <= i < j < places.len() ==> places[i] < places[j]
}

/// A walk only adds: what it had collected after the first `seen` lines of
/// the page is the beginning of what it has collected after all of them.
/// With `seen` at zero that is what it started with.
pub proof fn lemma_walk_grows(collected: Seq<Nation>, page: Seq<Nation>, rules: ScanRules, seen: int)
    requires
        0 <= seen <= page.len(),
    ensures
        begins(
            walk(collected, page, rules).collected,
            walk(collected, page.take(seen), rules).collected,
        ),
        seen == 0 ==> walk(collected, page.take(seen), rules).collected == collected,
    decreases page.len() - seen,
{
    if seen < page.len() {
        assert(page.take(seen + 1).drop_last() =~= page.take(seen));
        lemma_walk_grows(collected, page, rules, seen + 1);
    } else {
        assert(page.take(seen) =~= page);
    }
    if seen == 0 {
        assert(page.take(0).len() == 0);
    }
}

/// A walk that has stopped is not changed by the lines that follow.
pub proof fn lemma_stopped_walk_is_final(
    collected: Seq<Nation>,
    page: Seq<Nation>,
    rules: ScanRules,
    seen: int,
)
    requires
        0 <= seen <= page.len(),
        walk(collected, page.take(seen), rules).stopped(rules),
    ensures
        walk(collected, page, rules) == walk(collected, page.take(seen), rules),
    decreases page.len() - seen,
{
    if seen < page.len() {
        assert(page.take(seen + 1).drop_last() =~= page.take(seen));
        lemma_stopped_walk_is_final(collected, page, rules, seen + 1);
    } else {
        assert(page.take(seen) =~= page);
    }
}

/// Looking at one more nation keeps every collected nation over the cap and
/// every name there once.
proof fn lemma_promote(collected: Seq<Nation>, nation: Nation, rules: ScanRules)
    requires
        forall|i: int| 0 <= i < collected.len() ==> is_violator(#[trigger] collected[i], rules),
        names_of(collected).no_duplicates(),
    ensures
        forall|i: int|
            0 <= i < promote(collected, nation, rules).len() ==> is_violator(
                #[trigger] promote(collected, nation, rules)[i],
                rules,
            ),
        names_of(promote(collected, nation, rules)).no_duplicates(),
        promote(collected, nation, rules).len() <= collected.len() + 1,
{
    let after = promote(collected, nation, rules);
    if after.len() > collected.len() {
        let names = names_of(collected);
        assert(names_of(after) =~= names.push(nation.name));
        assert forall|i: int, j: int|
            0 <= i < names_of(after).len() && 0 <= j < names_of(after).len() && i != j implies names_of(
            after,
        )[i] != names_of(after)[j] by {
            if i == names.len() {
                assert(names[j] != nation.name);
            } else if j == names.len() {
                assert(names[i] != nation.name);
            }
        }
    }
}

/// A walk that starts with no more nations than the target, each over the
/// cap and not to be ignored, and no name twice, ends so.
pub proof fn lemma_walk_sound(collected: Seq<Nation>, page: Seq<Nation>, rules: ScanRules)
    requires
        collected.len() <= rules.target,
        forall|i: int| 0 <= i < collected.len() ==> is_violator(#[trigger] collected[i], rules),
        names_of(collected).no_duplicates(),
    ensures
        walk(collected, page, rules).collected.len() <= rules.target,
        forall|i: int|
            0 <= i < walk(collected, page, rules).collected.len() ==> is_violator(
                #[trigger] walk(collected, page, rules).collected[i],
                rules,
            ),
        names_of(walk(collected, page, rules).collected).no_duplicates(),
    decreases page.len(),
{
    if page.len() > 0 {
        lemma_walk_sound(collected, page.drop_last(), rules);
        lemma_promote(walk(collected, page.drop_last(), rules).collected, page.last(), rules);
    }
}

/// The nations that a walk adds come in the order in which the page lists
/// them, and none of them stands at or behind a line with a score of zero.
/// The places on the page at which they stand are handed back.
pub proof fn lemma_walk_keeps_page_order(
    collected: Seq<Nation>,
    page: Seq<Nation>,
    rules: ScanRules,
) -> (places: Seq<int>)
    ensures
        collected.len() <= walk(collected, page, rules).collected.len(),
        stands_in_order(
            walk(collected, page, rules).collected.skip(collected.len() as int),
            page,
            places,
        ),
        forall|i: int, zero: int|
            0 <= i < places.len() && 0 <= zero <= #[trigger] places[i] ==> (
            #[trigger] page[zero]).score != 0,
    decreases page.len(),
{
    if page.len() == 0 {
        Seq::empty()
    } else {
        let front = page.drop_last();
        let found = lemma_walk_keeps_page_order(collected, front, rules);
        let before = walk(collected, front, rules).collected;
        let after = walk(collected, page, rules).collected;
        let start = collected.len() as int;
        assert forall|i: int, zero: int|
            0 <= i < found.len() && 0 <= zero <= #[trigger] found[i] implies (
        #[trigger] page[zero]).score != 0 by {
            assert(page[zero] == front[zero]);
        }
        if after.len() > before.len() {
            let places = found.push(page.len() - 1);
            lemma_walk_zero_free(collected, front, rules);
            assert(after =~= before.push(page.last()));
            assert forall|i: int| 0 <= i < places.len() implies 0 <= #[trigger] places[i]
                < page.len() && page[places[i]] == after.skip(start)[i] by {
                if i < found.len() {
                    assert(front[found[i]] == before.skip(start)[i]);
                }
            }
            assert forall|i: int, zero: int|
                0 <= i < places.len() && 0 <= zero <= #[trigger] places[i] implies (
            #[trigger] page[zero]).score != 0 by {
                if zero < front.len() {
                    assert(page[zero] == front[zero]);
                }
            }
            places
        } else {
            assert(after =~= before);
            assert forall|i: int| 0 <= i < found.len() implies 0 <= #[trigger] found[i]
                < page.len() && page[found[i]] == after.skip(start)[i] by {
                assert(front[found[i]] == before.skip(start)[i]);
            }
            found
        }
    }
}

/// A walk that has not stopped has met no score of zero.
proof fn lemma_walk_zero_free(collected: Seq<Nation>, page: Seq<Nation>, rules: ScanRules)
    ensures
        !walk(collected, page, rules).stopped(rules) ==> forall|z: int|
            0 <= z < page.len() ==> (#[trigger] page[z]).score != 0,
    decreases page.len(),
{
    if page.len() > 0 {
        let front = page.drop_last();
        lemma_walk_zero_free(collected, front, rules);
        if !walk(collected, page, rules).stopped(rules) {
            assert forall|z: int| 0 <= z < page.len() implies (#[trigger] page[z]).score != 0 by {
                if z < front.len() {
                    assert(page[z] == front[z]);
                }
            }
        }
    }
}

/// A walk passes over no nation that qualifies: a nation over the cap that
/// stands on the page at a place which the walk reaches before it stops is
/// among the collected by name.
pub proof fn lemma_walk_misses_nothing(
    collected: Seq<Nation>,
    page: Seq<Nation>,
    rules: ScanRules,
    place: int,
)
    requires
        0 <= place < page.len(),
        !walk(collected, page.take(place), rules).stopped(rules),
        is_violator(page[place], rules),
    ensures
        names_of(walk(collected, page, rules).collected).contains(page[place].name),
{
    let before = walk(collected, page.take(place), rules).collected;
    let at = walk(collected, page.take(place + 1), rules).collected;
    let end = walk(collected, page, rules).collected;
    assert(page.take(place + 1).drop_last() =~= page.take(place));
    assert(page.take(place + 1).last() == page[place]);
    let k = if names_of(before).contains(page[place].name) {
        choose|k: int| 0 <= k < names_of(before).len() && names_of(before)[k] == page[place].name
    } else {
        before.len() as int
    };
    assert(0 <= k < at.len() && at[k].name == page[place].name);
    lemma_walk_grows(collected, page, rules, place + 1);
    assert(names_of(end)[k] == page[place].name);
}

/// Where the ranks never fall along what was collected followed by the
/// page, they never fall along what the walk over the page collects.
pub proof fn lemma_walk_keeps_rank_order(collected: Seq<Nation>, page: Seq<Nation>, rules: ScanRules)
    requires
        ranks_ascend(collected + page),
    ensures
        ranks_ascend(walk(collected, page, rules).collected),
{
    let both = collected + page;
    let after = walk(collected, page, rules).collected;
    let kept = collected.len() as int;
    let places = lemma_walk_keeps_page_order(collected, page, rules);
    lemma_walk_grows(collected, page, rules, 0);
    assert forall|i: int, j: int| 0 <= i <= j < after.len() implies (#[trigger] after[i]).rank <= (
    #[trigger] after[j]).rank by {
        let at_i = if i < kept {
            i
        } else {
            kept + places[i - kept]
        };
        let at_j = if j < kept {
            j
        } else {
            kept + places[j - kept]
        };
        if i >= kept {
            assert(after.skip(kept)[i - kept] == after[i]);
        }
        if j >= kept {
            assert(after.skip(kept)[j - kept] == after[j]);
        }
        if kept <= i < j {
            assert(places[i - kept] < places[j - kept]);
        }
        assert(both[at_i] == after[i]);
        assert(both[at_j] == after[j]);
    }
}

/// A walk that comes to a line with a score of zero before it has met the
/// target ends there: it has then collected what it had collected up to that
/// line, which is less than the target, and looks at no line behind it.
pub proof fn lemma_zero_ends_walk(
    collected: Seq<Nation>,
    page: Seq<Nation>,
    rules: ScanRules,
    zero: int,
)
    requires
        0 <= zero < page.len(),
        page[zero].score == 0,
        walk(collected, page.take(zero), rules).collected.len() < rules.target,
    ensures
        walk(collected, page, rules) == (Walk {
            collected: walk(collected, page.take(zero), rules).collected,
            reached_zero: true,
        }),
{
    let before = walk(collected, page.take(zero), rules);
    if before.stopped(rules) {
        lemma_stopped_walk_is_final(collected, page, rules, zero);
    } else {
        assert(page.take(zero + 1).drop_last() =~= page.take(zero));
        assert(page.take(zero + 1).last() == page[zero]);
        lemma_stopped_walk_is_final(collected, page, rules, zero + 1);
    }
}

/// A scan that is over takes no further answer: it stays as it is.
pub proof fn lemma_finished_is_final(
    scan: ScanModel,
    outcomes: Seq<Result<Seq<Nation>, FetchError>>,
)
    requires
        scan.finished(),
    ensures
        scan.run(outcomes) == scan,
    decreases outcomes.len(),
{
    if outcomes.len() > 0 {
        lemma_finished_is_final(scan, outcomes.drop_last());
    }
}

/// A sound scan is sound after the next answer.
pub proof fn lemma_accept_keeps_sound(scan: ScanModel, outcome: Result<Seq<Nation>, FetchError>)
    requires
        scan.sound(),
    ensures
        scan.accept(outcome).sound(),
        scan.accept(outcome).rules == scan.rules,
{
    match outcome {
        Ok(page) => {
            lemma_walk_sound(scan.collected, page, scan.rules);
        },
        Err(_) => {},
    }
}

/// A sound scan is sound after any run of answers.
pub proof fn lemma_run_keeps_sound(scan: ScanModel, outcomes: Seq<Result<Seq<Nation>, FetchError>>)
    requires
        scan.sound(),
    ensures
        scan.run(outcomes).sound(),
        scan.run(outcomes).rules == scan.rules,
    decreases outcomes.len(),
{
    if outcomes.len() > 0 {
        lemma_run_keeps_sound(scan, outcomes.drop_last());
        lemma_accept_keeps_sound(scan.run(outcomes.drop_last()), outcomes.last());
    }
}

/// A scan only adds: what it had collected after the first `seen` answers is
/// the beginning of what it has collected after all of them. Its rules stay
/// what they were.
pub proof fn lemma_scan_grows(
    scan: ScanModel,
    outcomes: Seq<Result<Seq<Nation>, FetchError>>,
    seen: int,
)
    requires
        0 <= seen <= outcomes.len(),
    ensures
        begins(scan.run(outcomes).collected, scan.run(outcomes.take(seen)).collected),
        scan.run(outcomes).rules == scan.rules,
    decreases outcomes.len(),
{
    if outcomes.len() == 0 {
        assert(outcomes.take(seen) =~= outcomes);
    } else if seen == outcomes.len() {
        assert(outcomes.take(seen) =~= outcomes);
        lemma_scan_grows(scan, outcomes.drop_last(), seen - 1);
    } else {
        let front = outcomes.drop_last();
        assert(front.take(seen) =~= outcomes.take(seen));
        lemma_scan_grows(scan, front, seen);
        let before = scan.run(front);
        match outcomes.last() {
            Ok(page) => {
                lemma_walk_grows(before.collected, page, before.rules, 0);
            },
            Err(_) => {},
        }
    }
}

/// A scan passes over no nation that qualifies: a nation over the cap that
/// stands on a page which the scan took while it was running, at a place
/// which the walk over that page reaches before it stops, is among the
/// collected by name.
pub proof fn lemma_scan_misses_nothing(
    rules: ScanRules,
    outcomes: Seq<Result<Seq<Nation>, FetchError>>,
    answer: int,
    place: int,
)
    requires
        0 <= answer < outcomes.len(),
        outcomes[answer] is Ok,
        0 <= place < outcomes[answer]->Ok_0.len(),
        !ScanModel::start(rules).run(outcomes.take(answer)).finished(),
        !walk(
            ScanModel::start(rules).run(outcomes.take(answer)).collected,
            outcomes[answer]->Ok_0.take(place),
            rules,
        ).stopped(rules),
        is_violator(outcomes[answer]->Ok_0[place], rules),
    ensures
        names_of(ScanModel::start(rules).run(outcomes).collected).contains(
            outcomes[answer]->Ok_0[place].name,
        ),
{
    let page = outcomes[answer]->Ok_0;
    let begin = ScanModel::start(rules);
    let before = begin.run(outcomes.take(answer));
    let at = begin.run(outcomes.take(answer + 1));
    let end = begin.run(outcomes);
    lemma_scan_grows(begin, outcomes.take(answer), answer);
    assert(outcomes.take(answer + 1).drop_last() =~= outcomes.take(answer));
    assert(outcomes.take(answer + 1).last() == outcomes[answer]);
    lemma_walk_misses_nothing(before.collected, page, rules, place);
    let k = choose|k: int|
        0 <= k < names_of(at.collected).len() && names_of(at.collected)[k] == page[place].name;
    lemma_scan_grows(begin, outcomes, answer + 1);
    assert(names_of(end.collected)[k] == page[place].name);
}

/// What a scan has collected comes in the order in which the pages list it:
/// the order of discovery. The places in the listing at which the collected
/// nations stand are handed back.
pub proof fn lemma_scan_keeps_listing_order(
    rules: ScanRules,
    outcomes: Seq<Result<Seq<Nation>, FetchError>>,
) -> (places: Seq<int>)
    ensures
        stands_in_order(ScanModel::start(rules).run(outcomes).collected, listed(outcomes), places),
    decreases outcomes.len(),
{
    if outcomes.len() == 0 {
        Seq::empty()
    } else {
        let front = outcomes.drop_last();
        let found = lemma_scan_keeps_listing_order(rules, front);
        let before = ScanModel::start(rules).run(front);
        let after = before.accept(outcomes.last());
        let seen = listed(front);
        match outcomes.last() {
            Ok(page) => {
                if before.finished() {
                    assert forall|i: int| 0 <= i < found.len() implies 0 <= #[trigger] found[i] < (
                    seen + page).len() && (seen + page)[found[i]] == after.collected[i] by {
                        assert(seen[found[i]] == before.collected[i]);
                    }
                    found
                } else {
                    let added = lemma_walk_keeps_page_order(before.collected, page, before.rules);
                    lemma_walk_grows(before.collected, page, before.rules, 0);
                    let kept = before.collected.len() as int;
                    let places = Seq::new(
                        after.collected.len(),
                        |i: int|
                            if i < kept {
                                found[i]
                            } else {
                                seen.len() + added[i - kept]
                            },
                    );
                    assert forall|i: int| 0 <= i < places.len() implies 0 <= #[trigger] places[i]
                        < (seen + page).len() && (seen + page)[places[i]]
                        == after.collected[i] by {
                        if i < kept {
                            assert(seen[found[i]] == before.collected[i]);
                        } else {
                            assert(page[added[i - kept]] == after.collected.skip(kept)[i - kept]);
                        }
                    }
                    assert forall|i: int, j: int| 0 <= i < j < places.len() implies places[i]
                        < places[j] by {
                        if j < kept {
                            assert(found[i] < found[j]);
                        } else if i < kept {
                            assert(0 <= found[i] < seen.len());
                            assert(0 <= added[j - kept]);
                        } else {
                            assert(added[i - kept] < added[j - kept]);
                        }
                    }
                    places
                }
            },
            Err(_) => found,
        }
    }
}

/// Where the ranks never fall along the pages that a scan is given, they
/// never fall along what it collects.
pub proof fn lemma_scan_keeps_rank_order(
    rules: ScanRules,
    outcomes: Seq<Result<Seq<Nation>, FetchError>>,
)
    requires
        ranks_ascend(listed(outcomes)),
    ensures
        ranks_ascend(ScanModel::start(rules).run(outcomes).collected),
{
    let places = lemma_scan_keeps_listing_order(rules, outcomes);
    let collected = ScanModel::start(rules).run(outcomes).collected;
    let all = listed(outcomes);
    assert forall|i: int, j: int| 0 <= i <= j < collected.len() implies (
    #[trigger] collected[i]).rank <= (#[trigger] collected[j]).rank by {
        assert(all[places[i]] == collected[i]);
        assert(all[places[j]] == collected[j]);
        if i < j {
            assert(places[i] < places[j]);
        }
    }
}

/// What holds of a scan after any answers: it has collected no more nations
/// than the target; each of them stood on a page it was given, with a score
/// above the cap and a name that is not to be ignored; no name is there
/// twice; and no name to be ignored is among those it hands out.
pub proof fn lemma_scan_result(rules: ScanRules, outcomes: Seq<Result<Seq<Nation>, FetchError>>)
    ensures
        ScanModel::start(rules).run(outcomes).collected.len() <= rules.target,
        forall|i: int|
            0 <= i < ScanModel::start(rules).run(outcomes).collected.len() ==> {
                let nation = #[trigger] ScanModel::start(rules).run(outcomes).collected[i];
                &&& nation.score > rules.endocap
                &&& !rules.ignore.contains(nation.name)
                &&& listed(outcomes).contains(nation)
            },
        names_of(ScanModel::start(rules).run(outcomes).collected).no_duplicates(),
        forall|name: Seq<char>|
            rules.ignore.contains(name) ==> !names_of(
                ScanModel::start(rules).run(outcomes).collected,
            ).contains(name),
{
    let end = ScanModel::start(rules).run(outcomes);
    assert(names_of(ScanModel::start(rules).collected) =~= Seq::<Seq<char>>::empty());
    lemma_run_keeps_sound(ScanModel::start(rules), outcomes);
    let places = lemma_scan_keeps_listing_order(rules, outcomes);
    assert forall|i: int| 0 <= i < end.collected.len() implies {
        let nation = #[trigger] end.collected[i];
        &&& nation.score > rules.endocap
        &&& !rules.ignore.contains(nation.name)
        &&& listed(outcomes).contains(nation)
    } by {
        assert(is_violator(end.collected[i], rules));
        assert(listed(outcomes)[places[i]] == end.collected[i]);
    }
    assert forall|name: Seq<char>| rules.ignore.contains(name) implies !names_of(
        end.collected,
    ).contains(name) by {
        if names_of(end.collected).contains(name) {
            let i = choose|i: int|
                0 <= i < names_of(end.collected).len() && names_of(end.collected)[i] == name;
            assert(is_violator(end.collected[i], rules));
        }
    }
}

/// A scan that is given a page on which a score of zero comes before the
/// target is met is over after that page, without a failure and with fewer
/// nations than the target.
pub proof fn lemma_zero_ends_scan(scan: ScanModel, page: Seq<Nation>, zero: int)
    requires
        !scan.finished(),
        0 <= zero < page.len(),
        page[zero].score == 0,
        walk(scan.collected, page.take(zero), scan.rules).collected.len() < scan.rules.target,
    ensures
        scan.on_page(page).finished(),
        scan.on_page(page).exhausted,
        scan.on_page(page).outcome() is Found,
        scan.on_page(page).collected == walk(scan.collected, page.take(zero), scan.rules).collected,
        scan.on_page(page).collected.len() < scan.rules.target,
{
    lemma_zero_ends_walk(scan.collected, page, scan.rules, zero);
}

} // verus!
