use endorsers::census::RankedNation;
use endorsers::error::FetchError;
use endorsers::scan::{holds_name, scan, ScanAction, ScanOutcome, Scanner};
use endorsers::violators::ViolatorSet;

fn nation(name: &str, rank: u32, score: u32) -> RankedNation {
    RankedNation::new(name.to_string(), rank, score)
}

fn names(set: &ViolatorSet) -> Vec<String> {
    set.names().clone()
}

fn found(scanner: Scanner) -> ViolatorSet {
    match scanner.finish() {
        ScanOutcome::Found(set) => set,
        other => panic!("the scan found nothing: {:?}", other),
    }
}

fn strings(names: &[&str]) -> Vec<String> {
    names.iter().map(|name| name.to_string()).collect()
}

/// Ranks 1 to 20: eighteen nations over a cap of 25, and those at ranks 7 and
/// 15 at or under it.
fn first_page() -> Vec<RankedNation> {
    (1..=20u32)
        .map(|rank| {
            let score: u32 = if rank == 7 {
                25
            } else if rank == 15 {
                12
            } else {
                300 - rank
            };
            nation(&format!("nation_{}", rank), rank, score)
        })
        .collect()
}

/// Ranks 21 to 25: three nations over a cap of 25, then the nations without
/// an endorsement.
fn second_page() -> Vec<RankedNation> {
    vec![
        nation("nation_21", 21, 40),
        nation("nation_22", 22, 39),
        nation("nation_23", 23, 38),
        nation("nation_24", 24, 0),
        nation("nation_25", 25, 0),
    ]
}

fn expected_twenty() -> Vec<String> {
    let mut expected: Vec<String> = (1..=20u32)
        .filter(|rank| *rank != 7 && *rank != 15)
        .map(|rank| format!("nation_{}", rank))
        .collect();
    expected.push("nation_21".to_string());
    expected.push("nation_22".to_string());
    expected
}

#[test]
fn scan_of_two_pages_stops_at_the_target() {
    let mut scanner = Scanner::new(25, Vec::new(), 20, 20);
    assert_eq!(scanner.next_action(), ScanAction::Fetch { start_rank: 1 });
    assert_eq!(scanner.accept(&Ok(first_page())), ScanAction::Fetch { start_rank: 21 });
    assert_eq!(scanner.collected().len(), 18);
    assert_eq!(scanner.accept(&Ok(second_page())), ScanAction::Finished);
    assert!(scanner.is_finished());
    let set = found(scanner);
    assert_eq!(set.len(), 20);
    assert_eq!(names(&set), expected_twenty());
}

#[test]
fn scan_over_answers_at_hand_gives_the_same() {
    let outcomes = vec![Ok(first_page()), Ok(second_page())];
    let set = scan(25, Vec::new(), 20, 20, &outcomes).unwrap();
    assert_eq!(names(&set), expected_twenty());
}

#[test]
fn scan_does_not_read_past_the_target() {
    // what follows the twentieth nation is not looked at, whatever it is
    let mut page = second_page();
    page[2] = nation("nation_1", 23, 999);
    let outcomes = vec![Ok(first_page()), Ok(page), Err(FetchError::Transport)];
    let set = scan(25, Vec::new(), 20, 20, &outcomes).unwrap();
    assert_eq!(names(&set), expected_twenty());
}

#[test]
fn ignored_nation_is_never_collected() {
    let ignore = strings(&["nation_a"]);
    let page = vec![
        nation("nation_a", 1, 999),
        nation("nation_b", 2, 500),
        nation("nation_c", 3, 26),
        nation("nation_d", 4, 0),
    ];
    let set = scan(25, ignore.clone(), 20, 20, &vec![Ok(page.clone())]).unwrap();
    assert_eq!(names(&set), strings(&["nation_b", "nation_c"]));
    assert!(!set.contains(&"nation_a".to_string()));

    let mut later = page;
    later.swap(0, 2);
    let set = scan(25, ignore, 20, 20, &vec![Ok(later)]).unwrap();
    assert_eq!(names(&set), strings(&["nation_c", "nation_b"]));
}

#[test]
fn ignored_names_match_exactly() {
    let ignore = strings(&["Nation_A", "nation_a ", "nation"]);
    let page = vec![nation("nation_a", 1, 999)];
    let set = scan(25, ignore, 20, 20, &vec![Ok(page)]).unwrap();
    assert_eq!(names(&set), strings(&["nation_a"]));
}

#[test]
fn score_of_zero_ends_the_scan_early() {
    let page = vec![
        nation("a", 1, 40),
        nation("b", 2, 30),
        nation("c", 3, 20),
        nation("d", 4, 10),
        nation("e", 5, 0),
        nation("f", 6, 100),
    ];
    let mut scanner = Scanner::new(25, Vec::new(), 20, 20);
    assert_eq!(scanner.accept(&Ok(page)), ScanAction::Finished);
    let set = found(scanner);
    assert_eq!(names(&set), strings(&["a", "b"]));
    assert!(set.len() < 20);
}

#[test]
fn nothing_behind_a_score_of_zero_is_read() {
    let outcomes = vec![
        Ok(vec![nation("a", 1, 40), nation("z", 2, 0), nation("b", 3, 50)]),
        Ok(vec![nation("c", 21, 60)]),
        Err(FetchError::Format),
    ];
    let set = scan(25, Vec::new(), 20, 20, &outcomes).unwrap();
    assert_eq!(names(&set), strings(&["a"]));
}

#[test]
fn empty_page_ends_the_scan() {
    let mut scanner = Scanner::new(25, Vec::new(), 20, 20);
    assert_eq!(
        scanner.accept(&Ok(vec![nation("a", 1, 40)])),
        ScanAction::Fetch { start_rank: 21 }
    );
    assert_eq!(scanner.accept(&Ok(Vec::new())), ScanAction::Finished);
    assert_eq!(names(&found(scanner)), strings(&["a"]));
}

#[test]
fn empty_region_gives_an_empty_result() {
    let set = scan(25, Vec::new(), 20, 20, &vec![Ok(Vec::new())]).unwrap();
    assert_eq!(set.len(), 0);
    assert_eq!(names(&set), Vec::<String>::new());
}

#[test]
fn pages_start_one_page_size_apart() {
    let mut scanner = Scanner::new(0, Vec::new(), 1000, 20);
    assert_eq!(scanner.next_action(), ScanAction::Fetch { start_rank: 1 });
    assert_eq!(scanner.accept(&Ok(vec![nation("a", 1, 9)])), ScanAction::Fetch { start_rank: 21 });
    assert_eq!(scanner.accept(&Ok(vec![nation("b", 21, 8)])), ScanAction::Fetch { start_rank: 41 });
    assert_eq!(scanner.next_action(), ScanAction::Fetch { start_rank: 41 });
    let mut wide = Scanner::new(0, Vec::new(), 1000, 50);
    assert_eq!(wide.accept(&Ok(vec![nation("a", 1, 9)])), ScanAction::Fetch { start_rank: 51 });
}

#[test]
fn score_at_the_cap_is_not_over_it() {
    let page = vec![nation("over", 1, 26), nation("at", 2, 25), nation("under", 3, 24)];
    let set = scan(25, Vec::new(), 20, 20, &vec![Ok(page)]).unwrap();
    assert_eq!(names(&set), strings(&["over"]));
}

#[test]
fn cap_above_every_score_collects_nothing() {
    let page = vec![nation("a", 1, u32::MAX), nation("b", 2, 7)];
    let set = scan(u32::MAX as u64, Vec::new(), 20, 20, &vec![Ok(page.clone())]).unwrap();
    assert_eq!(set.len(), 0);
    let set = scan(u64::MAX, Vec::new(), 20, 20, &vec![Ok(page)]).unwrap();
    assert_eq!(set.len(), 0);
}

#[test]
fn target_is_met_in_the_middle_of_a_page() {
    let page = vec![nation("a", 1, 90), nation("b", 2, 80), nation("c", 3, 70), nation("d", 4, 0)];
    let mut scanner = Scanner::new(25, Vec::new(), 2, 20);
    assert_eq!(scanner.accept(&Ok(page)), ScanAction::Finished);
    assert_eq!(names(&found(scanner)), strings(&["a", "b"]));
}

#[test]
fn target_of_zero_asks_for_no_page() {
    let mut scanner = Scanner::new(25, Vec::new(), 0, 20);
    assert_eq!(scanner.next_action(), ScanAction::Finished);
    assert_eq!(scanner.accept(&Ok(vec![nation("a", 1, 90)])), ScanAction::Finished);
    assert_eq!(found(scanner).len(), 0);
}

#[test]
fn result_is_never_longer_than_the_target() {
    for target in 0..30usize {
        let outcomes = vec![Ok(first_page()), Ok(second_page())];
        let set = scan(25, Vec::new(), target, 20, &outcomes).unwrap();
        assert!(set.len() <= target);
        assert_eq!(set.len(), target.min(21));
    }
}

#[test]
fn name_is_collected_once() {
    let outcomes = vec![
        Ok(vec![nation("a", 1, 90), nation("b", 2, 80), nation("a", 3, 70)]),
        Ok(vec![nation("b", 21, 60), nation("c", 22, 50)]),
    ];
    let set = scan(25, Vec::new(), 20, 20, &outcomes).unwrap();
    assert_eq!(names(&set), strings(&["a", "b", "c"]));
}

#[test]
fn collected_nations_keep_rank_and_score() {
    let mut scanner = Scanner::new(25, Vec::new(), 20, 20);
    scanner.accept(&Ok(first_page()));
    scanner.accept(&Ok(second_page()));
    let collected = scanner.collected();
    assert_eq!(collected[0], nation("nation_1", 1, 299));
    assert_eq!(collected[19], nation("nation_22", 22, 39));
    for entry in collected {
        assert!(entry.score > 25);
    }
    for pair in collected.windows(2) {
        assert!(pair[0].rank <= pair[1].rank);
    }
}

#[test]
fn failed_read_ends_the_scan_without_a_result() {
    let mut scanner = Scanner::new(25, Vec::new(), 20, 20);
    assert_eq!(scanner.accept(&Ok(first_page())), ScanAction::Fetch { start_rank: 21 });
    assert_eq!(scanner.accept(&Err(FetchError::Transport)), ScanAction::Finished);
    assert!(scanner.is_finished());
    assert_eq!(scanner.finish(), ScanOutcome::Failed(FetchError::Transport));
}

#[test]
fn malformed_answer_is_told_apart_from_a_failed_request() {
    let format = scan(25, Vec::new(), 20, 20, &vec![Err(FetchError::Format)]);
    assert_eq!(format.err(), Some(FetchError::Format));
    let transport = scan(25, Vec::new(), 20, 20, &vec![Err(FetchError::Transport)]);
    assert_eq!(transport.err(), Some(FetchError::Transport));
}

#[test]
fn first_failure_is_the_one_reported() {
    let outcomes = vec![
        Ok(first_page()),
        Err(FetchError::Format),
        Err(FetchError::Transport),
        Ok(second_page()),
    ];
    assert_eq!(scan(25, Vec::new(), 20, 20, &outcomes).err(), Some(FetchError::Format));
}

#[test]
fn failure_after_the_end_changes_nothing() {
    let mut scanner = Scanner::new(25, Vec::new(), 20, 20);
    assert_eq!(scanner.accept(&Ok(vec![nation("a", 1, 90), nation("z", 2, 0)])), ScanAction::Finished);
    scanner.on_failure(FetchError::Transport);
    scanner.on_page(&vec![nation("b", 21, 90)]);
    assert_eq!(scanner.accept(&Err(FetchError::Format)), ScanAction::Finished);
    assert_eq!(names(&found(scanner)), strings(&["a"]));
}

#[test]
fn answers_that_end_early_end_the_scan() {
    let set = scan(25, Vec::new(), 20, 20, &vec![Ok(first_page())]).unwrap();
    assert_eq!(set.len(), 18);
    let set = scan(25, Vec::new(), 20, 20, &Vec::new()).unwrap();
    assert_eq!(set.len(), 0);
}

#[test]
fn scan_ends_where_no_further_rank_can_be_named() {
    let mut scanner = Scanner::new(25, Vec::new(), 20, usize::MAX);
    assert_eq!(scanner.next_action(), ScanAction::Fetch { start_rank: 1 });
    assert_eq!(scanner.accept(&Ok(vec![nation("a", 1, 90)])), ScanAction::Finished);
    assert_eq!(names(&found(scanner)), strings(&["a"]));
}

#[test]
fn page_size_of_zero_asks_for_the_same_page_again() {
    let mut scanner = Scanner::new(25, Vec::new(), 20, 0);
    assert_eq!(scanner.accept(&Ok(vec![nation("a", 1, 90)])), ScanAction::Fetch { start_rank: 1 });
    assert_eq!(scanner.accept(&Ok(Vec::new())), ScanAction::Finished);
}

#[test]
fn nation_is_found_by_its_name() {
    let nations = vec![nation("a", 1, 90), nation("b", 2, 80)];
    assert!(holds_name(&nations, &"a".to_string()));
    assert!(holds_name(&nations, &"b".to_string()));
    assert!(!holds_name(&nations, &"c".to_string()));
    assert!(!holds_name(&Vec::new(), &"a".to_string()));
}

#[test]
fn scan_that_is_not_over_hands_out_nothing() {
    let scanner = Scanner::new(25, Vec::new(), 20, 20);
    assert_eq!(scanner.finish(), ScanOutcome::Unfinished);
    let mut scanner = Scanner::new(25, Vec::new(), 20, 20);
    assert_eq!(scanner.accept(&Ok(first_page())), ScanAction::Fetch { start_rank: 21 });
    assert!(!scanner.is_finished());
    assert_eq!(scanner.finish(), ScanOutcome::Unfinished);
}

#[test]
fn scan_without_a_nation_over_the_cap_finds_an_empty_set() {
    let mut scanner = Scanner::new(25, Vec::new(), 20, 20);
    scanner.accept(&Ok(vec![nation("a", 1, 3), nation("b", 2, 0)]));
    assert_eq!(scanner.finish(), ScanOutcome::Found(ViolatorSet::new()));
}
