use endorsers::census::{census_page, clone_names, contains_name, RankedNation, PAGE_SIZE};

fn listing(count: u32) -> Vec<RankedNation> {
    (1..=count).map(|rank| RankedNation::new(format!("nation_{}", rank), rank, 500 - rank)).collect()
}

#[test]
fn nation_holds_what_it_was_made_of() {
    let nation = RankedNation::new("le_libertia".to_string(), 1, 193);
    assert_eq!(nation.name, "le_libertia");
    assert_eq!(nation.rank, 1);
    assert_eq!(nation.score, 193);
    assert_eq!(
        nation,
        RankedNation { name: "le_libertia".to_string(), rank: 1, score: 193 }
    );
}

#[test]
fn duplicate_is_equal_to_the_nation() {
    let nation = RankedNation::new("mancheseva_city".to_string(), 2, 145);
    assert_eq!(nation.duplicate(), nation);
}

#[test]
fn page_size_is_twenty() {
    assert_eq!(PAGE_SIZE, 20);
}

#[test]
fn page_is_never_longer_than_the_page_size() {
    let all = listing(25);
    let page = census_page(all.clone(), PAGE_SIZE);
    assert_eq!(page.len(), 20);
    assert_eq!(page, all[..20].to_vec());
}

#[test]
fn short_listing_is_a_page_as_it_stands() {
    let all = listing(7);
    assert_eq!(census_page(all.clone(), PAGE_SIZE), all);
    let full = listing(20);
    assert_eq!(census_page(full.clone(), PAGE_SIZE), full);
}

#[test]
fn empty_listing_is_an_empty_page() {
    assert_eq!(census_page(Vec::new(), PAGE_SIZE), Vec::new());
}

#[test]
fn page_of_size_zero_is_empty() {
    assert_eq!(census_page(listing(3), 0), Vec::new());
}

#[test]
fn page_is_never_longer_than_the_listing() {
    for count in 0..40u32 {
        for size in 0..30usize {
            let page = census_page(listing(count), size);
            assert!(page.len() <= size);
            assert!(page.len() <= count as usize);
            assert_eq!(page.len(), size.min(count as usize));
        }
    }
}

#[test]
fn name_is_found_by_exact_match() {
    let names = vec!["le_libertia".to_string(), "pland_adanna".to_string()];
    assert!(contains_name(&names, &"le_libertia".to_string()));
    assert!(contains_name(&names, &"pland_adanna".to_string()));
    assert!(!contains_name(&names, &"Le_Libertia".to_string()));
    assert!(!contains_name(&names, &"le_libertia ".to_string()));
    assert!(!contains_name(&names, &"".to_string()));
    assert!(!contains_name(&Vec::new(), &"le_libertia".to_string()));
}

#[test]
fn cloned_names_are_the_same_names() {
    let names = vec!["a".to_string(), "b".to_string(), "a".to_string()];
    assert_eq!(clone_names(&names), names);
    assert_eq!(clone_names(&Vec::new()), Vec::<String>::new());
}
