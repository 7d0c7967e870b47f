use rs_contracts::address::Address;
use rs_contracts::group::Group;

fn a(b: u8) -> Address {
    Address::from_bytes(&[b; 20]).unwrap()
}

#[test]
fn add_account_skips_members() {
    let mut g = Group::new("g".to_string(), a(0), vec![a(1)]);
    g.add_account(vec![a(2), a(1), a(2), a(3)]);
    assert_eq!(g.accounts, vec![a(1), a(2), a(3)]);
    assert!(g.in_group(&a(3)));
    assert!(!g.in_group(&a(4)));
}

#[test]
fn delete_account_removes_all_listed() {
    let mut g = Group::new("g".to_string(), a(0), vec![a(1), a(2), a(3), a(2)]);
    g.delete_account(vec![a(2), a(9)]);
    assert_eq!(g.accounts, vec![a(1), a(3)]);
}

#[test]
fn children_are_a_set_in_insertion_order() {
    let mut g = Group::new("g".to_string(), a(0), vec![]);
    g.add_child(a(5));
    g.add_child(a(6));
    g.add_child(a(5));
    assert_eq!(g.query_child(), vec![a(5), a(6)]);
    assert_eq!(g.query_child_len(), 2);
    g.delete_child(a(5));
    assert_eq!(g.query_child(), vec![a(6)]);
    assert_eq!(g.query_child_len(), 1);
}

#[test]
fn rename_changes_only_the_name() {
    let mut g = Group::new("old".to_string(), a(0), vec![a(1)]);
    g.update_name("new");
    assert_eq!(g.query_name(), "new".to_string());
    assert_eq!(g.accounts, vec![a(1)]);
}
