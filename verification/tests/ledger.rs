use attendance_nft::AccountId;
use attendance_nft::AttendanceNFT;
use attendance_nft::EventCreated;
use attendance_nft::LedgerError;
use attendance_nft::Mint;
use attendance_nft::Notice;
use attendance_nft::Transfer;

fn event_for(ledger: &mut AttendanceNFT, caller: AccountId) -> u64 {
    ledger
        .create_event(
            caller,
            String::from("Polkadot Meetup"),
            String::from("2023-06-01"),
            String::from("Berlin"),
        )
        .unwrap()
}

#[test]
fn create_event_works() {
    let alice = AccountId(1);
    let mut contract = AttendanceNFT::new(alice, false);

    let event_id = contract
        .create_event(
            alice,
            String::from("Polkadot Meetup"),
            String::from("2023-06-01"),
            String::from("Berlin"),
        )
        .unwrap();

    assert_eq!(event_id, 1);

    let event = contract.get_event(event_id).unwrap();
    assert_eq!(event.name, "Polkadot Meetup");
    assert_eq!(event.date, "2023-06-01");
    assert_eq!(event.location, "Berlin");
}

#[test]
fn mint_nft_works() {
    let alice = AccountId(1);
    let bob = AccountId(2);
    let mut contract = AttendanceNFT::new(alice, false);

    let event_id = event_for(&mut contract, alice);

    let minted = contract.mint_nft(
        alice,
        event_id,
        bob,
        String::from("{\"description\":\"Attendance proof for Polkadot Meetup\"}"),
        0,
    );
    assert!(minted.is_ok());

    let bob_nfts = contract.get_owned_nfts(bob);
    assert_eq!(bob_nfts.len(), 1);

    let nft = contract.get_nft(bob_nfts[0]).unwrap();
    assert_eq!(nft.event_id, event_id);
    assert_eq!(nft.owner, bob);
}

#[test]
fn unauthorized_mint_fails() {
    let alice = AccountId(1);
    let bob = AccountId(2);
    let charlie = AccountId(3);
    let mut contract = AttendanceNFT::new(alice, false);

    let event_id = event_for(&mut contract, alice);

    let minted = contract.mint_nft(
        bob,
        event_id,
        charlie,
        String::from("{\"description\":\"Attendance proof for Polkadot Meetup\"}"),
        0,
    );
    assert_eq!(minted, Err(LedgerError::NotAuthorized));
}

#[test]
fn minting_works() {
    let alice = AccountId(1);
    let bob = AccountId(2);
    let mut contract = AttendanceNFT::new(alice, true);

    let event_id = contract
        .create_event(
            alice,
            String::from("Polkadot Meetup"),
            String::from("2025-04-16"),
            String::from("San Francisco"),
        )
        .unwrap();

    let token_id = contract
        .mint_nft(alice, event_id, bob, String::from("ipfs://QmHash"), 0)
        .unwrap();

    assert_eq!(contract.owner_of(token_id), Some(bob));
    assert_eq!(contract.tokens_of(bob), vec![token_id]);

    let metadata = contract.get_nft(token_id).unwrap();
    let event = contract.get_event(metadata.event_id).unwrap();
    assert_eq!(event.name, "Polkadot Meetup");
}

#[test]
fn transfer_works() {
    let admin = AccountId(1);
    let alice = AccountId(4);
    let bob = AccountId(2);
    let mut contract = AttendanceNFT::new(admin, true);

    let event_id = contract
        .create_event(
            admin,
            String::from("Polkadot Meetup"),
            String::from("2025-04-16"),
            String::from("San Francisco"),
        )
        .unwrap();

    let token_id = contract
        .mint_nft(admin, event_id, alice, String::from("ipfs://QmHash"), 0)
        .unwrap();

    assert!(contract.transfer(alice, bob, token_id));
    assert_eq!(contract.owner_of(token_id), Some(bob));
    assert_eq!(contract.tokens_of(bob), vec![token_id]);
    assert_eq!(contract.tokens_of(alice), vec![]);
}

#[test]
fn unauthorized_minting_fails() {
    let alice = AccountId(1);
    let bob = AccountId(2);
    let charlie = AccountId(3);
    let mut contract = AttendanceNFT::new(alice, true);

    let event_id = contract
        .create_event(
            alice,
            String::from("Polkadot Meetup"),
            String::from("2025-04-16"),
            String::from("San Francisco"),
        )
        .unwrap();

    let result = contract.mint_nft(bob, event_id, charlie, String::from("ipfs://QmHash"), 0);
    assert!(result.is_err());
}

#[test]
fn ids_are_strictly_increasing() {
    let admin = AccountId(1);
    let bob = AccountId(2);
    let mut contract = AttendanceNFT::new(admin, false);

    let e1 = event_for(&mut contract, admin);
    let e2 = event_for(&mut contract, admin);
    let e3 = event_for(&mut contract, admin);
    assert_eq!((e1, e2, e3), (1, 2, 3));

    let t1 = contract.mint_nft(admin, e1, bob, String::new(), 0).unwrap();
    let t2 = contract.mint_nft(admin, e2, bob, String::new(), 0).unwrap();
    let t3 = contract.mint_nft(admin, e3, bob, String::new(), 0).unwrap();
    assert_eq!((t1, t2, t3), (1, 2, 3));

    assert_eq!(contract.get_event_count(), 3);
    assert_eq!(contract.get_nft_count(), 3);
}

#[test]
fn self_transfer_keeps_token_and_notifies() {
    let admin = AccountId(1);
    let bob = AccountId(2);
    let mut contract = AttendanceNFT::new(admin, false);

    let event_id = event_for(&mut contract, admin);
    let token_id = contract.mint_nft(admin, event_id, bob, String::new(), 0).unwrap();
    let _ = contract.take_notices();

    assert!(contract.transfer(bob, bob, token_id));
    assert_eq!(contract.tokens_of(bob), vec![token_id]);
    assert_eq!(contract.owner_of(token_id), Some(bob));

    let notices = contract.take_notices();
    assert_eq!(
        notices,
        vec![Notice::Transferred(Transfer { from: Some(bob), to: Some(bob), token_id })]
    );
}

#[test]
fn transfer_by_non_owner_changes_nothing() {
    let admin = AccountId(1);
    let bob = AccountId(2);
    let charlie = AccountId(3);
    let mut contract = AttendanceNFT::new(admin, false);

    let event_id = event_for(&mut contract, admin);
    let token_id = contract.mint_nft(admin, event_id, bob, String::new(), 0).unwrap();

    assert!(!contract.transfer(charlie, charlie, token_id));
    assert!(!contract.transfer(admin, charlie, token_id));
    assert_eq!(contract.owner_of(token_id), Some(bob));
    assert_eq!(contract.tokens_of(bob), vec![token_id]);
    assert_eq!(contract.tokens_of(charlie), vec![]);
}

#[test]
fn transfer_of_unknown_token_fails() {
    let admin = AccountId(1);
    let bob = AccountId(2);
    let mut contract = AttendanceNFT::new(admin, false);

    assert!(!contract.transfer(bob, admin, 1));
    assert!(!contract.transfer(admin, bob, 0));
}

#[test]
fn mint_then_transfer_chain() {
    let admin = AccountId(1);
    let bob = AccountId(2);
    let charlie = AccountId(3);
    let mut contract = AttendanceNFT::new(admin, false);

    let event_id = event_for(&mut contract, admin);
    let token_id = contract.mint_nft(admin, event_id, bob, String::new(), 0).unwrap();

    assert!(contract.transfer(bob, charlie, token_id));
    assert_eq!(contract.owner_of(token_id), Some(charlie));
    assert_eq!(contract.tokens_of(bob), vec![]);
    assert_eq!(contract.tokens_of(charlie), vec![token_id]);
}

#[test]
fn grant_then_mint_succeeds() {
    let admin = AccountId(1);
    let organizer = AccountId(2);
    let outsider = AccountId(3);
    let mut contract = AttendanceNFT::new(admin, true);

    let event_id = event_for(&mut contract, organizer);

    let refused = contract.mint_nft(outsider, event_id, outsider, String::new(), 0);
    assert_eq!(refused, Err(LedgerError::NotAuthorized));

    assert!(contract.add_authorized_minter(admin, outsider));
    let granted = contract.mint_nft(outsider, event_id, outsider, String::new(), 0);
    assert!(granted.is_ok());
}

#[test]
fn revoke_withdraws_permission() {
    let admin = AccountId(1);
    let minter = AccountId(2);
    let bob = AccountId(3);
    let mut contract = AttendanceNFT::new(admin, true);

    let event_id = event_for(&mut contract, admin);
    assert!(contract.add_authorized_minter(admin, minter));
    assert!(contract.mint_nft(minter, event_id, bob, String::new(), 0).is_ok());

    assert!(contract.remove_authorized_minter(admin, minter));
    assert_eq!(
        contract.mint_nft(minter, event_id, bob, String::new(), 0),
        Err(LedgerError::NotAuthorized)
    );
}

#[test]
fn only_admin_may_grant_or_revoke() {
    let admin = AccountId(1);
    let bob = AccountId(2);
    let charlie = AccountId(3);
    let mut contract = AttendanceNFT::new(admin, true);

    assert!(!contract.add_authorized_minter(bob, charlie));
    assert!(!contract.is_authorized_minter(charlie));

    assert!(contract.add_authorized_minter(admin, charlie));
    assert!(contract.is_authorized_minter(charlie));
    assert!(!contract.remove_authorized_minter(bob, charlie));
    assert!(contract.is_authorized_minter(charlie));
}

#[test]
fn admin_is_always_authorized() {
    let admin = AccountId(1);
    let contract = AttendanceNFT::new(admin, false);
    assert!(contract.is_authorized_minter(admin));
    assert!(!contract.is_authorized_minter(AccountId(2)));
}

#[test]
fn mint_on_missing_event_is_not_found() {
    let admin = AccountId(1);
    let bob = AccountId(2);
    let mut contract = AttendanceNFT::new(admin, false);

    assert_eq!(
        contract.mint_nft(admin, 1, bob, String::new(), 0),
        Err(LedgerError::NotFound)
    );
    assert_eq!(
        contract.mint_nft(bob, 7, bob, String::new(), 0),
        Err(LedgerError::NotFound)
    );
    assert_eq!(contract.get_nft_count(), 0);
}

#[test]
fn reads_on_unknown_ids_are_none_or_empty() {
    let admin = AccountId(1);
    let contract = AttendanceNFT::new(admin, false);

    assert_eq!(contract.owner_of(1), None);
    assert!(contract.get_nft(1).is_none());
    assert!(contract.get_event(1).is_none());
    assert!(contract.tokens_of(AccountId(9)).is_empty());
    assert_eq!(contract.get_event_count(), 0);
    assert_eq!(contract.get_nft_count(), 0);
}

#[test]
fn minted_token_records_metadata_and_timestamp() {
    let admin = AccountId(1);
    let bob = AccountId(2);
    let mut contract = AttendanceNFT::new(admin, false);

    let event_id = event_for(&mut contract, admin);
    let token_id = contract
        .mint_nft(admin, event_id, bob, String::from("ipfs://QmHash"), 1700000000)
        .unwrap();

    let nft = contract.get_nft(token_id).unwrap();
    assert_eq!(nft.id, token_id);
    assert_eq!(nft.metadata, "ipfs://QmHash");
    assert_eq!(nft.created_at, 1700000000);
    assert_eq!(contract.token_metadata(token_id), Some(String::from("ipfs://QmHash")));
    assert_eq!(contract.token_metadata(99), None);
}

#[test]
fn notices_are_recorded_in_order_and_drained() {
    let admin = AccountId(1);
    let bob = AccountId(2);
    let charlie = AccountId(3);
    let mut contract = AttendanceNFT::new(admin, false);

    let event_id = event_for(&mut contract, admin);
    let token_id = contract.mint_nft(admin, event_id, bob, String::new(), 0).unwrap();
    assert!(contract.transfer(bob, charlie, token_id));

    let notices = contract.take_notices();
    assert_eq!(
        notices,
        vec![
            Notice::Created(EventCreated { event_id, organizer: admin }),
            Notice::Minted(Mint { to: bob, token_id, event_id }),
            Notice::Transferred(Transfer { from: Some(bob), to: Some(charlie), token_id }),
        ]
    );
    assert!(contract.take_notices().is_empty());
}

#[test]
fn create_event_round_trip() {
    let organizer = AccountId(5);
    let mut contract = AttendanceNFT::new(AccountId(1), false);

    let event_id = contract
        .create_event(
            organizer,
            String::from("Polkadot Meetup"),
            String::from("2023-06-01"),
            String::from("Berlin"),
        )
        .unwrap();

    let event = contract.get_event(event_id).unwrap();
    assert_eq!(event.name, "Polkadot Meetup");
    assert_eq!(event.date, "2023-06-01");
    assert_eq!(event.location, "Berlin");
    assert_eq!(event.organizer, organizer);
}

#[test]
fn organizer_may_mint_without_grant() {
    let admin = AccountId(1);
    let organizer = AccountId(2);
    let bob = AccountId(3);
    let mut contract = AttendanceNFT::new(admin, false);

    let event_id = event_for(&mut contract, organizer);
    assert!(!contract.is_authorized_minter(organizer));
    assert!(contract.mint_nft(organizer, event_id, bob, String::new(), 0).is_ok());
}

#[test]
fn index_agrees_with_owner_after_each_operation() {
    let admin = AccountId(1);
    let bob = AccountId(2);
    let charlie = AccountId(3);
    let mut contract = AttendanceNFT::new(admin, false);

    let event_id = event_for(&mut contract, admin);
    let t1 = contract.mint_nft(admin, event_id, bob, String::new(), 0).unwrap();
    let t2 = contract.mint_nft(admin, event_id, bob, String::new(), 0).unwrap();
    assert_eq!(contract.tokens_of(bob), vec![t1, t2]);

    assert!(contract.transfer(bob, charlie, t1));
    assert_eq!(contract.tokens_of(bob), vec![t2]);
    assert_eq!(contract.tokens_of(charlie), vec![t1]);
    assert_eq!(contract.owner_of(t1), Some(charlie));
    assert_eq!(contract.owner_of(t2), Some(bob));
}
