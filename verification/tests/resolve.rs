use endorsers::error::FetchError;
use endorsers::resolve::{endorsed_violators, resolve, resolve_member, EndorsementRecord, Resolver};
use endorsers::violators::ViolatorSet;

fn strings(names: &[&str]) -> Vec<String> {
    names.iter().map(|name| name.to_string()).collect()
}

fn violators(names: &[&str]) -> ViolatorSet {
    let mut set = ViolatorSet::new();
    for name in names {
        set.insert(name.to_string());
    }
    set
}

fn record(endorser: &str, endorsed: &[&str]) -> EndorsementRecord {
    EndorsementRecord {
        endorser: endorser.to_string(),
        endorsed_violators: strings(endorsed),
        failure: None,
    }
}

fn degraded(endorser: &str, failure: FetchError) -> EndorsementRecord {
    EndorsementRecord {
        endorser: endorser.to_string(),
        endorsed_violators: Vec::new(),
        failure: Some(failure),
    }
}

#[test]
fn failed_lookup_degrades_one_record_only() {
    let members = strings(&["member_1", "member_2", "member_3"]);
    let outcomes = vec![
        Ok(strings(&["big_one", "someone", "big_two"])),
        Err(FetchError::Transport),
        Ok(strings(&["other", "big_two"])),
    ];
    let records = resolve(violators(&["big_one", "big_two"]), members, &outcomes);
    assert_eq!(records.len(), 3);
    assert_eq!(records[0], record("member_1", &["big_one", "big_two"]));
    assert_eq!(records[1], degraded("member_2", FetchError::Transport));
    assert_eq!(records[2], record("member_3", &["big_two"]));
    assert!(!records[0].is_degraded());
    assert!(records[1].is_degraded());
    assert!(!records[2].is_degraded());
}

#[test]
fn other_records_do_not_depend_on_the_failed_one() {
    let members = strings(&["member_1", "member_2", "member_3"]);
    let good = vec![
        Ok(strings(&["big_one"])),
        Ok(strings(&["big_two", "big_one"])),
        Ok(strings(&[])),
    ];
    let mut bad = good.clone();
    bad[1] = Err(FetchError::Format);
    let with = resolve(violators(&["big_one", "big_two"]), members.clone(), &good);
    let without = resolve(violators(&["big_one", "big_two"]), members, &bad);
    assert_eq!(with.len(), without.len());
    assert_eq!(with[0], without[0]);
    assert_eq!(with[2], without[2]);
    assert_eq!(with[1], record("member_2", &["big_one", "big_two"]));
    assert_eq!(without[1], degraded("member_2", FetchError::Format));
}

#[test]
fn every_member_gets_a_record_in_the_order_of_the_members() {
    let members = strings(&["d", "a", "c", "b", "a"]);
    let outcomes: Vec<Result<Vec<String>, FetchError>> =
        members.iter().map(|member| Ok(vec![member.clone(), "x".to_string()])).collect();
    let records = resolve(violators(&["x", "y"]), members.clone(), &outcomes);
    assert_eq!(records.len(), members.len());
    for (record, member) in records.iter().zip(members.iter()) {
        assert_eq!(&record.endorser, member);
        assert_eq!(record.endorsed_violators, strings(&["x"]));
        assert_eq!(record.failure, None);
    }
}

#[test]
fn endorsed_violators_are_violators() {
    let set = violators(&["v1", "v2", "v3", "v4"]);
    let endorsements = strings(&["n1", "v3", "n2", "v1", "v3", "n3"]);
    let endorsed = endorsed_violators(&set, &endorsements);
    assert_eq!(endorsed, strings(&["v1", "v3"]));
    for name in &endorsed {
        assert!(set.contains(name));
        assert!(endorsements.contains(name));
    }
}

#[test]
fn endorsed_violators_of_nothing_are_none() {
    let set = violators(&["v1", "v2"]);
    assert_eq!(endorsed_violators(&set, &Vec::new()), Vec::<String>::new());
    assert_eq!(endorsed_violators(&violators(&[]), &strings(&["v1"])), Vec::<String>::new());
    assert_eq!(endorsed_violators(&set, &strings(&["V1", "v2 "])), Vec::<String>::new());
}

#[test]
fn member_that_endorses_every_violator() {
    let set = violators(&["v1", "v2", "v3"]);
    let endorsed = endorsed_violators(&set, &strings(&["v3", "v2", "v1"]));
    assert_eq!(endorsed, strings(&["v1", "v2", "v3"]));
}

#[test]
fn record_of_one_member() {
    let set = violators(&["v1", "v2"]);
    let good = resolve_member(&set, "m".to_string(), &Ok(strings(&["v2", "q"])));
    assert_eq!(good, record("m", &["v2"]));
    let format = resolve_member(&set, "m".to_string(), &Err(FetchError::Format));
    assert_eq!(format, degraded("m", FetchError::Format));
    let transport = resolve_member(&set, "m".to_string(), &Err(FetchError::Transport));
    assert_eq!(transport, degraded("m", FetchError::Transport));
}

#[test]
fn resolver_names_the_members_in_turn() {
    let mut resolver = Resolver::new(violators(&["v"]), strings(&["a", "b"]));
    assert!(!resolver.is_done());
    assert_eq!(resolver.next_member(), Some(&"a".to_string()));
    assert_eq!(resolver.next_member(), Some(&"a".to_string()));
    resolver.accept(&Ok(strings(&["v"])));
    assert_eq!(resolver.next_member(), Some(&"b".to_string()));
    assert_eq!(resolver.records().len(), 1);
    resolver.accept(&Err(FetchError::Transport));
    assert_eq!(resolver.next_member(), None);
    assert!(resolver.is_done());
    assert_eq!(
        resolver.finish(),
        vec![record("a", &["v"]), degraded("b", FetchError::Transport)]
    );
}

#[test]
fn answer_after_the_last_member_is_not_taken() {
    let mut resolver = Resolver::new(violators(&["v"]), strings(&["a"]));
    resolver.accept(&Ok(strings(&[])));
    resolver.accept(&Ok(strings(&["v"])));
    resolver.accept(&Err(FetchError::Format));
    assert_eq!(resolver.finish(), vec![record("a", &[])]);

    let outcomes = vec![Ok(strings(&["v"])), Ok(strings(&["v"])), Err(FetchError::Format)];
    let records = resolve(violators(&["v"]), strings(&["a"]), &outcomes);
    assert_eq!(records, vec![record("a", &["v"])]);
}

#[test]
fn resolution_that_is_cut_short_keeps_what_it_has() {
    let members = strings(&["a", "b", "c"]);
    let outcomes = vec![Ok(strings(&["v"])), Err(FetchError::Transport)];
    let records = resolve(violators(&["v"]), members, &outcomes);
    assert_eq!(records, vec![record("a", &["v"]), degraded("b", FetchError::Transport)]);
}

#[test]
fn region_without_members_gives_no_record() {
    let mut resolver = Resolver::new(violators(&["v"]), Vec::new());
    assert!(resolver.is_done());
    assert_eq!(resolver.next_member(), None);
    resolver.accept(&Ok(strings(&["v"])));
    assert_eq!(resolver.finish(), Vec::new());
}

#[test]
fn resolution_against_no_violator_gives_empty_records() {
    let outcomes = vec![Ok(strings(&["x", "y"])), Ok(strings(&[]))];
    let records = resolve(violators(&[]), strings(&["a", "b"]), &outcomes);
    assert_eq!(records, vec![record("a", &[]), record("b", &[])]);
}
