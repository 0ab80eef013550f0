//! The table of amounts that the ledger and the exchange keep their books in.

use zenlink::events::Event;
use zenlink::table::{Key, Table};

fn key(asset: u64, first: u64, second: u64) -> Key {
    Key { asset, first, second }
}

#[test]
fn absent_keys_read_as_zero() {
    let table = Table::new();
    assert_eq!(table.get(key(0, 0, 0)), 0);
    assert_eq!(table.get(key(7, 8, 9)), 0);
}

#[test]
fn set_changes_one_amount_only() {
    let mut table = Table::new();
    table.set(key(1, 2, 0), 10);
    table.set(key(1, 3, 0), 20);
    table.set(key(2, 2, 0), 30);
    table.set(key(1, 2, 3), 40);
    assert_eq!(table.get(key(1, 2, 0)), 10);
    assert_eq!(table.get(key(1, 3, 0)), 20);
    assert_eq!(table.get(key(2, 2, 0)), 30);
    assert_eq!(table.get(key(1, 2, 3)), 40);
    assert_eq!(table.get(key(2, 1, 0)), 0);

    table.set(key(1, 2, 0), 11);
    table.set(key(2, 2, 0), 0);
    assert_eq!(table.get(key(1, 2, 0)), 11);
    assert_eq!(table.get(key(1, 3, 0)), 20);
    assert_eq!(table.get(key(2, 2, 0)), 0);
    assert_eq!(table.get(key(1, 2, 3)), 40);
    table.set(key(2, 2, 0), u128::MAX);
    assert_eq!(table.get(key(2, 2, 0)), u128::MAX);
}

#[test]
fn cloned_events_are_equal() {
    let events = vec![
        Event::Issued(1, 2, 3),
        Event::Transferred(1, 2, 3, 4),
        Event::Approval(1, 2, 3, 4),
        Event::Burned(1, 2, 3),
        Event::Minted(1, 2, 3),
        Event::AddLiquidity(1, 2, 3, 4, 5, 6),
        Event::RemoveLiquidity(1, 2, 3, 4, 5, 6),
        Event::Swap(1, vec![2, 3, 4], 5, 6),
    ];
    for event in &events {
        assert_eq!(&event.clone(), event);
    }
    assert_eq!(events.clone(), events);
    assert_ne!(Event::Swap(1, vec![2, 3], 5, 6), Event::Swap(1, vec![3, 2], 5, 6));
    assert_ne!(Event::Minted(1, 2, 3), Event::Burned(1, 2, 3));
}
