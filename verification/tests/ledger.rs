use pierprotocol_sei::contract::{
    execute_create_book_entry, execute_delete_book_entry, execute_update_book_entry, query,
    query_book_entry, query_book_list,
};
use pierprotocol_sei::error::ContractError;
use pierprotocol_sei::msg::{QueryAnswer, QueryMsg};
use pierprotocol_sei::state::{BookEntry, Ledger};

fn create(l: &mut Ledger, owner: &str, asset: &str, amount: u128, price: u128) -> u64 {
    execute_create_book_entry(l, owner.to_string(), asset.to_string(), amount, price).unwrap()
}

#[test]
fn fresh_ledger_is_empty() {
    let l = Ledger::new();
    assert_eq!(query_book_list(&l, None, None).book_entrys.len(), 0);
    assert_eq!(
        query_book_entry(&l, 1),
        Err(ContractError::NotFound {})
    );
}

#[test]
fn create_issues_increasing_ids() {
    let mut l = Ledger::new();
    let a = create(&mut l, "alice", "asset-a", 10, 100);
    let b = create(&mut l, "bob", "asset-b", 20, 200);
    let c = create(&mut l, "carol", "asset-c", 30, 300);
    assert_eq!(a, 1);
    assert_eq!(b, 2);
    assert_eq!(c, 3);
}

#[test]
fn create_stores_all_fields() {
    let mut l = Ledger::new();
    let id = create(&mut l, "alice", "asset-a", 10, 100);
    let e = query_book_entry(&l, id).unwrap();
    assert_eq!(
        e,
        BookEntry {
            id,
            owner: "alice".to_string(),
            asset_reference: "asset-a".to_string(),
            amount: 10,
            price: 100,
        }
    );
}

#[test]
fn ids_are_not_reused_after_delete() {
    let mut l = Ledger::new();
    let a = create(&mut l, "alice", "asset-a", 10, 100);
    let b = create(&mut l, "alice", "asset-b", 20, 200);
    execute_delete_book_entry(&mut l, "alice".to_string(), b).unwrap();
    execute_delete_book_entry(&mut l, "alice".to_string(), a).unwrap();
    let c = create(&mut l, "bob", "asset-c", 30, 300);
    assert_eq!(c, 3);
}

#[test]
fn update_by_owner_replaces_exactly_the_three_fields() {
    let mut l = Ledger::new();
    let id = create(&mut l, "alice", "asset-a", 10, 100);
    execute_update_book_entry(
        &mut l,
        "alice".to_string(),
        id,
        "asset-z".to_string(),
        77,
        888,
    )
    .unwrap();
    let e = query_book_entry(&l, id).unwrap();
    assert_eq!(e.id, id);
    assert_eq!(e.owner, "alice");
    assert_eq!(e.asset_reference, "asset-z");
    assert_eq!(e.amount, 77);
    assert_eq!(e.price, 888);
}

#[test]
fn update_by_nonowner_is_unauthorized_and_changes_nothing() {
    let mut l = Ledger::new();
    let id = create(&mut l, "alice", "asset-a", 10, 100);
    let before = query_book_entry(&l, id).unwrap();
    let r = execute_update_book_entry(
        &mut l,
        "mallory".to_string(),
        id,
        "asset-z".to_string(),
        0,
        0,
    );
    assert_eq!(r, Err(ContractError::Unauthorized {}));
    assert_eq!(query_book_entry(&l, id).unwrap(), before);
}

#[test]
fn delete_by_nonowner_is_unauthorized_and_changes_nothing() {
    let mut l = Ledger::new();
    let id = create(&mut l, "alice", "asset-a", 10, 100);
    let before = query_book_entry(&l, id).unwrap();
    let r = execute_delete_book_entry(&mut l, "mallory".to_string(), id);
    assert_eq!(r, Err(ContractError::Unauthorized {}));
    assert_eq!(query_book_entry(&l, id).unwrap(), before);
}

#[test]
fn update_of_missing_id_is_not_found() {
    let mut l = Ledger::new();
    let r = execute_update_book_entry(
        &mut l,
        "alice".to_string(),
        9,
        "asset-z".to_string(),
        1,
        1,
    );
    assert_eq!(r, Err(ContractError::NotFound {}));
}

#[test]
fn delete_of_missing_id_is_not_found() {
    let mut l = Ledger::new();
    let r = execute_delete_book_entry(&mut l, "alice".to_string(), 9);
    assert_eq!(r, Err(ContractError::NotFound {}));
}

#[test]
fn delete_removes_the_entry_everywhere() {
    let mut l = Ledger::new();
    let a = create(&mut l, "alice", "asset-a", 10, 100);
    let b = create(&mut l, "alice", "asset-b", 20, 200);
    let c = create(&mut l, "alice", "asset-c", 30, 300);
    execute_delete_book_entry(&mut l, "alice".to_string(), b).unwrap();
    assert_eq!(query_book_entry(&l, b), Err(ContractError::NotFound {}));
    let page = query_book_list(&l, None, None).book_entrys;
    let ids: Vec<u64> = page.iter().map(|e| e.id).collect();
    assert_eq!(ids, vec![a, c]);
}

#[test]
fn list_defaults_to_ten_entries() {
    let mut l = Ledger::new();
    for i in 0..12u128 {
        create(&mut l, "alice", "asset", i, i);
    }
    let page = query_book_list(&l, None, None).book_entrys;
    let ids: Vec<u64> = page.iter().map(|e| e.id).collect();
    assert_eq!(ids, (1..=10).collect::<Vec<u64>>());
}

#[test]
fn list_is_clamped_to_thirty_entries() {
    let mut l = Ledger::new();
    for i in 0..35u128 {
        create(&mut l, "alice", "asset", i, i);
    }
    let page = query_book_list(&l, None, Some(100)).book_entrys;
    let ids: Vec<u64> = page.iter().map(|e| e.id).collect();
    assert_eq!(ids, (1..=30).collect::<Vec<u64>>());
    assert_eq!(query_book_list(&l, None, Some(31)).book_entrys.len(), 30);
    assert_eq!(query_book_list(&l, None, Some(30)).book_entrys.len(), 30);
}

#[test]
fn list_ascends_strictly_by_id() {
    let mut l = Ledger::new();
    for i in 0..8u128 {
        create(&mut l, "alice", "asset", i, i);
    }
    execute_delete_book_entry(&mut l, "alice".to_string(), 3).unwrap();
    execute_delete_book_entry(&mut l, "alice".to_string(), 6).unwrap();
    let page = query_book_list(&l, None, None).book_entrys;
    for pair in page.windows(2) {
        assert!(pair[0].id < pair[1].id);
    }
    let ids: Vec<u64> = page.iter().map(|e| e.id).collect();
    assert_eq!(ids, vec![1, 2, 4, 5, 7, 8]);
}

#[test]
fn start_after_is_an_exclusive_bound() {
    let mut l = Ledger::new();
    for i in 0..6u128 {
        create(&mut l, "alice", "asset", i, i);
    }
    let page = query_book_list(&l, Some(3), None).book_entrys;
    let ids: Vec<u64> = page.iter().map(|e| e.id).collect();
    assert_eq!(ids, vec![4, 5, 6]);
    assert!(page.iter().all(|e| e.id > 3));
}

#[test]
fn start_after_works_on_a_deleted_id() {
    let mut l = Ledger::new();
    for i in 0..5u128 {
        create(&mut l, "alice", "asset", i, i);
    }
    execute_delete_book_entry(&mut l, "alice".to_string(), 3).unwrap();
    let page = query_book_list(&l, Some(3), None).book_entrys;
    let ids: Vec<u64> = page.iter().map(|e| e.id).collect();
    assert_eq!(ids, vec![4, 5]);
}

#[test]
fn list_edge_cursors_and_limits() {
    let mut l = Ledger::new();
    for i in 0..4u128 {
        create(&mut l, "alice", "asset", i, i);
    }
    assert_eq!(query_book_list(&l, Some(4), None).book_entrys.len(), 0);
    assert_eq!(query_book_list(&l, Some(99), None).book_entrys.len(), 0);
    assert_eq!(query_book_list(&l, None, Some(0)).book_entrys.len(), 0);
    let ids: Vec<u64> = query_book_list(&l, Some(1), Some(2))
        .book_entrys
        .iter()
        .map(|e| e.id)
        .collect();
    assert_eq!(ids, vec![2, 3]);
}

#[test]
fn exhausted_counter_overflows_and_leaves_entries_usable() {
    let entries = vec![BookEntry {
        id: 5,
        owner: "alice".to_string(),
        asset_reference: "asset-a".to_string(),
        amount: 1,
        price: 2,
    }];
    let mut l = Ledger::from_parts(u64::MAX, entries).unwrap();
    let r = execute_create_book_entry(
        &mut l,
        "bob".to_string(),
        "asset-b".to_string(),
        3,
        4,
    );
    assert_eq!(r, Err(ContractError::Overflow {}));
    assert_eq!(query_book_entry(&l, 5).unwrap().amount, 1);
    execute_update_book_entry(&mut l, "alice".to_string(), 5, "asset-c".to_string(), 9, 9)
        .unwrap();
    execute_delete_book_entry(&mut l, "alice".to_string(), 5).unwrap();
    assert_eq!(query_book_entry(&l, 5), Err(ContractError::NotFound {}));
}

#[test]
fn from_parts_rejects_ill_formed_state() {
    let entry = |id: u64| BookEntry {
        id,
        owner: "alice".to_string(),
        asset_reference: "asset".to_string(),
        amount: 1,
        price: 1,
    };
    assert!(Ledger::from_parts(10, vec![entry(2), entry(2)]).is_none());
    assert!(Ledger::from_parts(10, vec![entry(3), entry(2)]).is_none());
    assert!(Ledger::from_parts(10, vec![entry(0)]).is_none());
    assert!(Ledger::from_parts(10, vec![entry(11)]).is_none());
    assert!(Ledger::from_parts(10, vec![entry(1), entry(10)]).is_some());
}

#[test]
fn query_dispatches_both_kinds() {
    let mut l = Ledger::new();
    let id = create(&mut l, "alice", "asset-a", 10, 100);
    match query(&l, QueryMsg::BookEntry { id }).unwrap() {
        QueryAnswer::BookEntry(e) => assert_eq!(e.id, id),
        _ => panic!("expected a single entry"),
    }
    match query(
        &l,
        QueryMsg::BookList {
            start_after: None,
            limit: None,
        },
    )
    .unwrap()
    {
        QueryAnswer::BookList(resp) => assert_eq!(resp.book_entrys.len(), 1),
        _ => panic!("expected a list"),
    }
    assert_eq!(
        query(&l, QueryMsg::BookEntry { id: 42 }),
        Err(ContractError::NotFound {})
    );
}

#[test]
fn scenario_five_entries_paging_authorization_and_retirement() {
    let mut l = Ledger::new();
    for i in 1..=5u128 {
        let id = create(&mut l, "owner-a", "asset", i, 10 * i);
        assert_eq!(id as u128, i);
    }
    let ids: Vec<u64> = query_book_list(&l, None, None)
        .book_entrys
        .iter()
        .map(|e| e.id)
        .collect();
    assert_eq!(ids, vec![1, 2, 3, 4, 5]);

    let ids: Vec<u64> = query_book_list(&l, Some(3), Some(2))
        .book_entrys
        .iter()
        .map(|e| e.id)
        .collect();
    assert_eq!(ids, vec![4, 5]);

    let before = query_book_entry(&l, 2).unwrap();
    assert_eq!(
        execute_update_book_entry(
            &mut l,
            "owner-b".to_string(),
            2,
            "other".to_string(),
            0,
            0
        ),
        Err(ContractError::Unauthorized {})
    );
    assert_eq!(
        execute_delete_book_entry(&mut l, "owner-b".to_string(), 2),
        Err(ContractError::Unauthorized {})
    );
    assert_eq!(query_book_entry(&l, 2).unwrap(), before);

    execute_delete_book_entry(&mut l, "owner-a".to_string(), 2).unwrap();
    assert_eq!(query_book_entry(&l, 2), Err(ContractError::NotFound {}));
    let next = create(&mut l, "anyone", "asset", 0, 0);
    assert_eq!(next, 6);
}
