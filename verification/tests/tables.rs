use erc20::allowances::AllowanceTable;
use erc20::balances::BalanceTable;

#[test]
fn balance_table_reads_back_what_was_recorded() {
    let mut table = BalanceTable::new();
    assert_eq!(table.get(1), 0);
    table.insert(1, 10);
    table.insert(2, 20);
    assert_eq!(table.get(1), 10);
    assert_eq!(table.get(2), 20);
    assert_eq!(table.get(3), 0);
}

#[test]
fn balance_table_overwrites_an_existing_key() {
    let mut table = BalanceTable::new();
    table.insert(7, 100);
    table.insert(7, 25);
    assert_eq!(table.get(7), 25);
}

#[test]
fn allowance_table_keys_pairs_in_order() {
    let mut table = AllowanceTable::new();
    assert_eq!(table.get(1, 2), 0);
    table.insert(1, 2, 50);
    assert_eq!(table.get(1, 2), 50);
    assert_eq!(table.get(2, 1), 0);
    table.insert(2, 1, 8);
    assert_eq!(table.get(1, 2), 50);
    assert_eq!(table.get(2, 1), 8);
}

#[test]
fn allowance_table_overwrites_an_existing_pair() {
    let mut table = AllowanceTable::new();
    table.insert(3, 4, 9);
    table.insert(3, 4, 1);
    assert_eq!(table.get(3, 4), 1);
}
