use endorsers::violators::ViolatorSet;

#[test]
fn new_set_is_empty() {
    let set = ViolatorSet::new();
    assert_eq!(set.len(), 0);
    assert!(set.names().is_empty());
    assert!(!set.contains(&"a".to_string()));
}

#[test]
fn names_stay_in_the_order_in_which_they_came() {
    let mut set = ViolatorSet::new();
    assert!(set.insert("c".to_string()));
    assert!(set.insert("a".to_string()));
    assert!(set.insert("b".to_string()));
    assert_eq!(set.names(), &vec!["c".to_string(), "a".to_string(), "b".to_string()]);
    assert_eq!(set.len(), 3);
}

#[test]
fn name_that_is_there_is_not_added_again() {
    let mut set = ViolatorSet::new();
    assert!(set.insert("a".to_string()));
    assert!(set.insert("b".to_string()));
    assert!(!set.insert("a".to_string()));
    assert!(!set.insert("a".to_string()));
    assert!(!set.insert("b".to_string()));
    assert_eq!(set.names(), &vec!["a".to_string(), "b".to_string()]);
    assert_eq!(set.len(), 2);
}

#[test]
fn membership_is_by_exact_name() {
    let mut set = ViolatorSet::new();
    set.insert("le_libertia".to_string());
    assert!(set.contains(&"le_libertia".to_string()));
    assert!(!set.contains(&"Le_Libertia".to_string()));
    assert!(!set.contains(&"le_libertia_".to_string()));
    assert!(set.insert("Le_Libertia".to_string()));
    assert_eq!(set.len(), 2);
}
