use soroban_sdk::{IntoVal, TryFromVal, Val};
use stellar_swipe::id_list::IdList;
use stellar_swipe::table::Table;

#[test]
fn id_list_grows_at_the_end() {
    let host = soroban_sdk::Env::default();
    let empty = IdList::new(&host);
    assert_eq!(empty.len(), 0);
    assert_eq!(empty.get(0), None);
    assert!(!empty.contains(5));
    let list = empty.with(5).with(u64::MAX).with(7);
    assert_eq!(empty.len(), 0);
    assert_eq!(list.len(), 3);
    assert_eq!(list.get(0), Some(5));
    assert_eq!(list.get(1), Some(u64::MAX));
    assert_eq!(list.get(2), Some(7));
    assert_eq!(list.get(3), None);
    assert!(list.contains(u64::MAX));
    assert!(!list.contains(6));
}

#[test]
fn id_list_comes_back_from_the_host() {
    let host = soroban_sdk::Env::default();
    let items = IdList::new(&host).with(3).with(4).to_host();
    assert_eq!(items.len(), 2);
    let list = IdList::from_host(items).unwrap();
    assert_eq!(list.len(), 2);
    assert_eq!(list.get(0), Some(3));
    assert_eq!(list.get(1), Some(4));
}

#[test]
fn host_vector_of_other_values_is_no_id_list() {
    let host = soroban_sdk::Env::default();
    let mut values: soroban_sdk::Vec<Val> = soroban_sdk::Vec::new(&host);
    values.push_back(1u64.into_val(&host));
    values.push_back(true.into_val(&host));
    let raw: Val = values.into_val(&host);
    let items = soroban_sdk::Vec::<u64>::try_from_val(&host, &raw).unwrap();
    assert!(IdList::from_host(items).is_none());
}

#[test]
fn table_is_a_map() {
    let mut table: Table<u64, char> = Table::new();
    assert_eq!(table.get(1), None);
    table.set(1, 'a');
    table.set(2, 'b');
    table.set(3, 'c');
    table.set(2, 'd');
    assert_eq!(table.get(1), Some(&'a'));
    assert_eq!(table.get(2), Some(&'d'));
    assert_eq!(table.get(3), Some(&'c'));
    table.remove(1);
    table.remove(4);
    assert_eq!(table.get(1), None);
    assert_eq!(table.get(2), Some(&'d'));
    assert_eq!(table.get(3), Some(&'c'));
}
