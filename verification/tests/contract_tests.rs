use hotel_booking::contract::Contract;
use hotel_booking::types::{ContractError, Transfer, UsageStatus};

fn s(text: &str) -> String {
    text.to_string()
}

fn add_room(contract: &mut Contract, owner: &str, name: &str, description: &str, price: u128) {
    contract.add_room_to_owner(
        s(owner),
        s(name),
        s("test.img"),
        1,
        s(description),
        s("Tokyo"),
        price,
    );
}

#[test]
fn add_then_get_registered_rooms() {
    let mut contract = Contract::default();
    // the signer is the second test account
    let owner_id = s("bob");
    contract.add_room_to_owner(
        owner_id.clone(),
        "101".to_string(),
        "test.img".to_string(),
        1,
        "This is 101 room".to_string(),
        "Tokyo".to_string(),
        10,
    );
    contract.add_room_to_owner(
        owner_id.clone(),
        "201".to_string(),
        "test.img".to_string(),
        1,
        "This is 201 room".to_string(),
        "Tokyo".to_string(),
        10,
    );
    let all_rooms = contract.get_rooms_registered_by_owner(owner_id);
    assert_eq!(all_rooms.len(), 2);
}

#[test]
fn no_registered_room() {
    let contract = Contract::default();
    let no_registered_room = contract.get_rooms_registered_by_owner(s("alice"));
    assert_eq!(no_registered_room.len(), 0);
}

#[test]
fn add_then_get_available_rooms() {
    let mut contract = Contract::default();
    let owner_id = s("bob");
    contract.add_room_to_owner(
        owner_id.clone(),
        "101".to_string(),
        "test.img".to_string(),
        1,
        "This is 101 room".to_string(),
        "Tokyo".to_string(),
        10,
    );
    contract.add_room_to_owner(
        owner_id,
        "201".to_string(),
        "test.img".to_string(),
        1,
        "This is 201 room".to_string(),
        "Tokyo".to_string(),
        10,
    );
    // the caller is now the third test account, which changes nothing here
    let available_rooms = contract.get_available_rooms("2222-01-01".to_string());
    assert_eq!(available_rooms.len(), 2);
}

#[test]
fn no_available_room() {
    let contract = Contract::default();
    let available_rooms = contract.get_available_rooms("2222-01-01".to_string());
    assert_eq!(available_rooms.len(), 0);
}

#[test]
fn book_room_then_change_status() {
    let owner_id = s("bob");
    let guest_id = s("charlie");
    let mut contract = Contract::default();

    contract.add_room_to_owner(
        owner_id.clone(),
        "101".to_string(),
        "test.img".to_string(),
        1,
        "This is 101 room".to_string(),
        "Tokyo".to_string(),
        10,
    );

    // CHECK BOOKING: the guest attaches a deposit of 10
    let check_in_date: String = "2222-01-01".to_string();
    let available_rooms = contract.get_available_rooms(check_in_date.clone());

    contract.book_room(
        guest_id.clone(),
        10,
        available_rooms[0].room_id.clone(),
        check_in_date.clone(),
    );

    let booked_rooms = contract.get_booking_info_for_owner(owner_id.clone());
    assert_eq!(booked_rooms.len(), 1);
    assert_eq!(booked_rooms[0].check_in_date, check_in_date);
    assert_eq!(booked_rooms[0].guest_id, guest_id);

    let guest_booked_rooms = contract.get_booking_info_for_guest(guest_id.clone());
    assert_eq!(guest_booked_rooms.len(), 1);
    assert_eq!(guest_booked_rooms[0].owner_id, owner_id);

    // CHECK CHANGE STATUS
    let is_available = contract.is_available(booked_rooms[0].room_id.clone());
    assert_eq!(is_available, true);

    contract.change_status_to_stay(booked_rooms[0].room_id.clone(), check_in_date.clone());
    let booked_rooms = contract.get_booking_info_for_owner(owner_id.clone());
    assert_ne!(booked_rooms[0].status, UsageStatus::Available);

    let is_available = contract.is_available(booked_rooms[0].room_id.clone());
    assert_eq!(is_available, false);

    contract.change_status_to_available(
        available_rooms[0].room_id.clone(),
        check_in_date.clone(),
        booked_rooms[0].guest_id.clone(),
    );

    let booked_rooms = contract.get_booking_info_for_owner(owner_id.clone());
    assert_eq!(booked_rooms.len(), 0);

    let guest_booked_info = contract.get_booking_info_for_guest(guest_id);
    assert_eq!(guest_booked_info.len(), 0);
}

#[test]
fn room_id_is_owner_followed_by_name() {
    let mut contract = Contract::default();
    add_room(&mut contract, "bob", "101", "This is 101 room", 10);
    let rooms = contract.get_available_rooms(s("2222-01-01"));
    assert_eq!(rooms.len(), 1);
    assert_eq!(rooms[0].room_id, "bob101");
    assert_eq!(rooms[0].owner_id, "bob");
    assert_eq!(rooms[0].name, "101");
    assert_eq!(rooms[0].image, "test.img");
    assert_eq!(rooms[0].beds, 1);
    assert_eq!(rooms[0].description, "This is 101 room");
    assert_eq!(rooms[0].location, "Tokyo");
    assert_eq!(rooms[0].price, 10);
    assert!(contract.has_room(&s("bob101")));
}

#[test]
fn room_exists_after_adding() {
    let mut contract = Contract::default();
    assert!(!contract.room_exists(s("bob"), s("101")));
    add_room(&mut contract, "bob", "101", "d", 10);
    assert!(contract.room_exists(s("bob"), s("101")));
    assert!(!contract.room_exists(s("bob"), s("201")));
    assert!(!contract.room_exists(s("alice"), s("101")));
}

#[test]
fn registered_rooms_keep_registration_order() {
    let mut contract = Contract::default();
    add_room(&mut contract, "bob", "101", "first", 10);
    add_room(&mut contract, "alice", "1", "other owner", 5);
    add_room(&mut contract, "bob", "201", "second", 20);
    let rooms = contract.get_rooms_registered_by_owner(s("bob"));
    assert_eq!(rooms.len(), 2);
    assert_eq!(rooms[0].name, "101");
    assert_eq!(rooms[0].description, "first");
    assert_eq!(rooms[1].name, "201");
    assert_eq!(rooms[1].price, 20);
    assert_eq!(rooms[1].status, UsageStatus::Available);
}

#[test]
fn registering_a_room_again_replaces_it_and_lists_it_twice() {
    let mut contract = Contract::default();
    add_room(&mut contract, "bob", "101", "old", 10);
    contract.book_room(s("charlie"), 10, s("bob101"), s("2222-01-01"));
    add_room(&mut contract, "bob", "101", "new", 30);
    let rooms = contract.get_rooms_registered_by_owner(s("bob"));
    assert_eq!(rooms.len(), 2);
    assert_eq!(rooms[0].description, "new");
    assert_eq!(rooms[1].description, "new");
    assert_eq!(contract.room_price(&s("bob101")), Some(30));
    // the room's bookings went with the old room
    assert_eq!(contract.get_booking_info_for_owner(s("bob")).len(), 0);
    assert_eq!(contract.get_available_rooms(s("2222-01-01")).len(), 1);
    // the guest still holds the booking
    let guest = contract.get_booking_info_for_guest(s("charlie"));
    assert_eq!(guest.len(), 1);
    assert_eq!(guest[0].name, "101");
}

#[test]
fn booking_returns_the_transfer_to_the_owner() {
    let mut contract = Contract::default();
    add_room(&mut contract, "bob", "101", "d", 10);
    let transfer = contract.book_room(s("charlie"), 10, s("bob101"), s("2222-01-01"));
    assert_eq!(transfer, Transfer { receiver_id: s("bob"), amount: 10 });
}

#[test]
fn booked_room_is_not_available_for_that_date_only() {
    let mut contract = Contract::default();
    add_room(&mut contract, "bob", "101", "d", 10);
    add_room(&mut contract, "bob", "201", "d", 10);
    contract.book_room(s("charlie"), 10, s("bob101"), s("2222-01-01"));
    let rooms = contract.get_available_rooms(s("2222-01-01"));
    assert_eq!(rooms.len(), 1);
    assert_eq!(rooms[0].room_id, "bob201");
    assert_eq!(contract.get_available_rooms(s("2222-01-02")).len(), 2);
}

#[test]
fn guest_sees_each_booking() {
    let mut contract = Contract::default();
    add_room(&mut contract, "bob", "101", "d", 10);
    add_room(&mut contract, "alice", "7", "d", 5);
    contract.book_room(s("charlie"), 10, s("bob101"), s("2222-01-01"));
    contract.book_room(s("charlie"), 5, s("alice7"), s("2222-01-02"));
    let info = contract.get_booking_info_for_guest(s("charlie"));
    assert_eq!(info.len(), 2);
    assert_eq!(info[0].owner_id, "bob");
    assert_eq!(info[0].name, "101");
    assert_eq!(info[0].check_in_date, "2222-01-01");
    assert_eq!(info[1].owner_id, "alice");
    assert_eq!(info[1].name, "7");
    assert_eq!(info[1].check_in_date, "2222-01-02");
    assert_eq!(contract.get_booking_info_for_guest(s("danny")).len(), 0);
}

#[test]
fn stay_shows_only_on_the_booking_of_its_date() {
    let mut contract = Contract::default();
    add_room(&mut contract, "bob", "101", "d", 10);
    contract.book_room(s("charlie"), 10, s("bob101"), s("2222-01-01"));
    contract.book_room(s("danny"), 10, s("bob101"), s("2222-01-02"));
    contract.change_status_to_stay(s("bob101"), s("2222-01-02"));
    let booked = contract.get_booking_info_for_owner(s("bob"));
    assert_eq!(booked.len(), 2);
    assert_eq!(booked[0].check_in_date, "2222-01-01");
    assert_eq!(booked[0].guest_id, "charlie");
    assert_eq!(booked[0].status, UsageStatus::Available);
    assert_eq!(booked[1].check_in_date, "2222-01-02");
    assert_eq!(booked[1].guest_id, "danny");
    assert_eq!(booked[1].status, UsageStatus::Stay { check_in_date: s("2222-01-02") });
    let registered = contract.get_rooms_registered_by_owner(s("bob"));
    assert_eq!(registered[0].status, UsageStatus::Stay { check_in_date: s("2222-01-02") });
}

#[test]
fn release_undoes_book() {
    let mut contract = Contract::default();
    add_room(&mut contract, "bob", "101", "d", 10);
    contract.book_room(s("charlie"), 10, s("bob101"), s("2222-01-03"));
    contract.book_room(s("charlie"), 10, s("bob101"), s("2222-01-01"));
    contract.change_status_to_available(s("bob101"), s("2222-01-01"), s("charlie"));
    let booked = contract.get_booking_info_for_owner(s("bob"));
    assert_eq!(booked.len(), 1);
    assert_eq!(booked[0].check_in_date, "2222-01-03");
    let guest = contract.get_booking_info_for_guest(s("charlie"));
    assert_eq!(guest.len(), 1);
    assert_eq!(guest[0].check_in_date, "2222-01-03");
    assert_eq!(contract.get_available_rooms(s("2222-01-01")).len(), 1);
    assert!(contract.is_available(s("bob101")));
}

#[test]
fn release_error_names_the_first_missing_piece() {
    let mut contract = Contract::default();
    add_room(&mut contract, "bob", "101", "d", 10);
    let room = s("bob101");
    let date = s("2222-01-01");
    let guest = s("charlie");
    assert_eq!(
        contract.release_error(&s("nope"), &date, &guest),
        Some(ContractError::NotFoundRoom)
    );
    assert_eq!(contract.release_error(&room, &date, &guest), Some(ContractError::NotFoundDate));
    contract.book_room(s("danny"), 10, room.clone(), date.clone());
    assert_eq!(contract.release_error(&room, &date, &guest), Some(ContractError::NotFoundGuest));
    contract.book_room(guest.clone(), 10, room.clone(), s("2222-01-02"));
    assert_eq!(contract.release_error(&room, &date, &guest), Some(ContractError::NotFoundBooked));
    assert_eq!(contract.release_error(&room, &date, &s("danny")), None);
}

#[test]
fn error_messages() {
    assert_eq!(ContractError::NotFoundRoom.message(), "ERR_NOT_FOUND_ROOM");
    assert_eq!(ContractError::NotFoundDate.message(), "ERR_NOT_FOUND_DATE");
    assert_eq!(ContractError::NotFoundGuest.message(), "ERR_NOT_FOUND_GUEST");
    assert_eq!(ContractError::NotFoundBooked.message(), "ERR_NOT_FOUND_BOOKED");
}

#[test]
fn room_price_of_missing_room_is_none() {
    let mut contract = Contract::default();
    assert_eq!(contract.room_price(&s("bob101")), None);
    add_room(&mut contract, "bob", "101", "d", 42);
    assert_eq!(contract.room_price(&s("bob101")), Some(42));
    assert!(!contract.has_room(&s("bob102")));
}

#[test]
fn rebooking_a_date_replaces_the_guest_on_the_room() {
    let mut contract = Contract::default();
    add_room(&mut contract, "bob", "101", "d", 10);
    contract.book_room(s("charlie"), 10, s("bob101"), s("2222-01-01"));
    contract.book_room(s("danny"), 10, s("bob101"), s("2222-01-01"));
    let booked = contract.get_booking_info_for_owner(s("bob"));
    assert_eq!(booked.len(), 1);
    assert_eq!(booked[0].guest_id, "danny");
    assert_eq!(contract.get_booking_info_for_guest(s("charlie")).len(), 1);
    assert_eq!(contract.get_booking_info_for_guest(s("danny")).len(), 1);
}

#[test]
fn stay_makes_room_unavailable() {
    let mut contract = Contract::default();
    add_room(&mut contract, "bob", "101", "d", 10);
    contract.change_status_to_stay(s("bob101"), s("2222-01-01"));
    assert!(!contract.is_available(s("bob101")));
}

#[test]
fn states_made_by_the_operations_are_well_formed() {
    let mut contract = Contract::default();
    assert!(contract.check_wf());
    add_room(&mut contract, "bob", "101", "d", 10);
    contract.book_room(s("charlie"), 10, s("bob101"), s("2222-01-01"));
    contract.change_status_to_stay(s("bob101"), s("2222-01-01"));
    assert!(contract.check_wf());
    contract.change_status_to_available(s("bob101"), s("2222-01-01"), s("charlie"));
    assert!(contract.check_wf());
}

#[test]
fn check_wf_rejects_a_repeated_key() {
    let mut contract = Contract::default();
    add_room(&mut contract, "bob", "101", "d", 10);
    contract.rooms_per_owner.keys.push(s("bob"));
    contract.rooms_per_owner.vals.push(vec![s("bob101")]);
    assert!(!contract.check_wf());
}

#[test]
fn check_wf_rejects_a_listed_room_that_does_not_exist() {
    let mut contract = Contract::default();
    add_room(&mut contract, "bob", "101", "d", 10);
    contract.rooms_per_owner.vals[0].push(s("bob999"));
    assert!(!contract.check_wf());
}

#[test]
fn check_wf_rejects_a_room_its_owner_does_not_list() {
    let mut contract = Contract::default();
    add_room(&mut contract, "bob", "101", "d", 10);
    contract.rooms_per_owner.vals[0].clear();
    assert!(!contract.check_wf());
}

#[test]
fn check_wf_rejects_a_guest_without_bookings() {
    let mut contract = Contract::default();
    add_room(&mut contract, "bob", "101", "d", 10);
    contract.book_room(s("charlie"), 10, s("bob101"), s("2222-01-01"));
    contract.bookings_per_guest.vals[0].keys.clear();
    contract.bookings_per_guest.vals[0].vals.clear();
    assert!(!contract.check_wf());
}

#[test]
fn check_wf_rejects_a_booking_of_a_missing_room() {
    let mut contract = Contract::default();
    add_room(&mut contract, "bob", "101", "d", 10);
    contract.book_room(s("charlie"), 10, s("bob101"), s("2222-01-01"));
    contract.bookings_per_guest.vals[0].vals[0] = s("bob999");
    assert!(!contract.check_wf());
}

#[test]
fn check_wf_rejects_vectors_of_different_lengths() {
    let mut contract = Contract::default();
    add_room(&mut contract, "bob", "101", "d", 10);
    contract.rooms_by_id.vals[0].booked_info.keys.push(s("2222-01-01"));
    assert!(!contract.check_wf());
}

#[test]
fn room_exists_asks_about_that_owner_and_name() {
    let mut contract = Contract::default();
    add_room(&mut contract, "bob", "101", "d", 10);
    assert!(contract.room_exists(s("bob"), s("101")));
    // "bo" + "b101" joins to the same id, but "bo" registered nothing
    assert!(!contract.room_exists(s("bo"), s("b101")));
}

#[test]
fn room_exists_after_another_owner_takes_the_same_id() {
    let mut contract = Contract::default();
    add_room(&mut contract, "ab", "c", "first", 10);
    add_room(&mut contract, "a", "bc", "second", 20);
    assert!(contract.room_exists(s("a"), s("bc")));
    assert!(!contract.room_exists(s("ab"), s("c")));
    assert!(contract.check_wf());
}

#[test]
fn check_wf_rejects_a_room_stored_under_another_id() {
    let mut contract = Contract::default();
    add_room(&mut contract, "bob", "101", "d", 10);
    contract.rooms_by_id.vals[0].name = s("102");
    assert!(!contract.check_wf());
}
