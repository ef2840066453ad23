//! Properties of the booking contract that span its operations.
use vstd::prelude::*;
use crate::model::{
    available_view, booked_view, booking_status, room_bookings, room_id_of, ContractView,
};
use crate::strmap::OrdMap;
use crate::types::{
    BookedRoomView, ContractError, GuestBookedRoomView, RegisteredRoomView, RoomView, StatusView,
};

verus! {

/// Ending the stay that a booking started undoes the booking: when the room
/// was free for the date and not occupied, and the guest had no booking for
/// that date, booking and then ending the stay leaves the state as it was.
pub proof fn law_release_undoes_book(
    v: ContractView,
    guest_id: Seq<char>,
    room_id: Seq<char>,
    date: Seq<char>,
)
    requires
        v.wf(),
        v.has_room(room_id),
        !v.rooms_by_id.map[room_id].booked_info.map.dom().contains(date),
        v.rooms_by_id.map[room_id].status == StatusView::Available,
        !(v.bookings_per_guest.contains_key(guest_id) && v.bookings_per_guest.map[guest_id].contains_key(
            date,
        )),
    ensures
        v.book(guest_id, room_id, date).can_release(room_id, date, guest_id),
        v.book(guest_id, room_id, date).release(room_id, date, guest_id) == v,
{
    let b = v.book(guest_id, room_id, date);
    let room = v.room(room_id);
    room.booked_info.lemma_insert_then_remove(date, guest_id);
    let booked = RoomView { booked_info: room.booked_info.insert(date, guest_id), ..room };
    assert(b.room(room_id) == booked);
    let freed = RoomView {
        booked_info: booked.booked_info.remove(date),
        status: StatusView::Available,
        ..booked
    };
    assert(freed =~= room);
    v.rooms_by_id.lemma_insert_twice(room_id, booked, room);
    v.rooms_by_id.lemma_insert_same(room_id);
    let r = b.release(room_id, date, guest_id);
    assert(r.rooms_by_id == v.rooms_by_id);
    if v.bookings_per_guest.contains_key(guest_id) {
        let gm = v.bookings_per_guest.map[guest_id];
        gm.lemma_insert_then_remove(date, room_id);
        assert(b.bookings_per_guest.map[guest_id] == gm.insert(date, room_id));
        let left = b.bookings_per_guest.map[guest_id].remove(date);
        assert(left == gm);
        assert(left.keys.len() > 0);
        v.bookings_per_guest.lemma_insert_twice(guest_id, gm.insert(date, room_id), gm);
        v.bookings_per_guest.lemma_insert_same(guest_id);
        assert(r.bookings_per_guest == v.bookings_per_guest);
    } else {
        let gm = OrdMap::<Seq<char>>::empty();
        OrdMap::<Seq<char>>::lemma_empty_wf();
        gm.lemma_insert_then_remove(date, room_id);
        let left = b.bookings_per_guest.map[guest_id].remove(date);
        assert(left == gm);
        v.bookings_per_guest.lemma_insert_then_remove(guest_id, gm.insert(date, room_id));
        assert(r.bookings_per_guest == v.bookings_per_guest);
    }
    assert(r =~= v);
}

/// A room just registered exists, is not occupied, has no bookings, and is
/// listed last among its owner's rooms, as registered and available.
pub proof fn law_added_room_is_registered(
    v: ContractView,
    owner_id: Seq<char>,
    name: Seq<char>,
    image: Seq<char>,
    beds: u8,
    description: Seq<char>,
    location: Seq<char>,
    price: u128,
)
    ensures
        ({
            let w = v.add_room(owner_id, name, image, beds, description, location, price);
            let id = room_id_of(owner_id, name);
            &&& w.room_registered(owner_id, name)
            &&& w.is_available(id)
            &&& w.rooms_by_id.map[id].booked_info.map.dom() == Set::<Seq<char>>::empty()
            &&& w.registered_rooms(owner_id).len() == v.registered_rooms(owner_id).len() + 1
            &&& w.registered_rooms(owner_id).last() == (RegisteredRoomView {
                name,
                image,
                beds,
                description,
                location,
                price,
                status: StatusView::Available,
            })
        }),
{
}

/// Marking a room occupied makes it unavailable.
pub proof fn law_stay_makes_unavailable(v: ContractView, room_id: Seq<char>, date: Seq<char>)
    ensures
        !v.stay(room_id, date).is_available(room_id),
{
}

/// Ending a stay makes the room available, and free for that date.
pub proof fn law_release_makes_available(
    v: ContractView,
    room_id: Seq<char>,
    date: Seq<char>,
    guest_id: Seq<char>,
)
    ensures
        v.release(room_id, date, guest_id).is_available(room_id),
        !v.release(room_id, date, guest_id).rooms_by_id.map[room_id].booked_info.map.dom().contains(
            date,
        ),
{
}

/// Once a room is occupied for a date, its booking for that date shows the
/// stay and its other bookings show it available.
pub proof fn law_stay_shows_on_bookings(v: ContractView, room_id: Seq<char>, date: Seq<char>)
    ensures
        ({
            let bookings = room_bookings(room_id, v.stay(room_id, date).room(room_id));
            forall|i: int|
                0 <= i < bookings.len() ==> (#[trigger] bookings[i]).status == if bookings[i].check_in_date
                    == date {
                    StatusView::Stay { check_in_date: date }
                } else {
                    StatusView::Available
                }
        }),
{
}

/// A contract with no rooms lists nothing for anybody.
pub proof fn law_empty_contract(owner_id: Seq<char>, guest_id: Seq<char>, date: Seq<char>)
    ensures
        ContractView::empty().wf(),
        ContractView::empty().registered_rooms(owner_id).len() == 0,
        ContractView::empty().owner_bookings(owner_id).len() == 0,
        ContractView::empty().guest_bookings(guest_id).len() == 0,
        ContractView::empty().available_rooms(date).len() == 0,
{
    OrdMap::<Seq<Seq<char>>>::lemma_empty_wf();
    OrdMap::<RoomView>::lemma_empty_wf();
    OrdMap::<OrdMap<Seq<char>>>::lemma_empty_wf();
}

/// What `available_among` lists: each entry is a free room of the list, and
/// every free room of the list is listed, once when the list has no repeats.
pub proof fn lemma_available_among(v: ContractView, ids: Seq<Seq<char>>, date: Seq<char>)
    ensures
        ({
            let r = v.available_among(ids, date);
            &&& forall|i: int|
                0 <= i < r.len() ==> {
                    &&& ids.contains(#[trigger] r[i].room_id)
                    &&& v.free_on(r[i].room_id, date)
                    &&& r[i] == available_view(r[i].room_id, v.room(r[i].room_id))
                }
            &&& forall|j: int|
                0 <= j < ids.len() && v.free_on(#[trigger] ids[j], date) ==> exists|i: int|
                    0 <= i < r.len() && #[trigger] r[i].room_id == ids[j]
            &&& ids.no_duplicates() ==> forall|a: int, b: int|
                0 <= a < r.len() && 0 <= b < r.len() && a != b ==> #[trigger] r[a].room_id
                    != #[trigger] r[b].room_id
        }),
    decreases ids.len(),
{
    if ids.len() > 0 {
        let front = ids.drop_last();
        lemma_available_among(v, front, date);
        let rest = v.available_among(front, date);
        let r = v.available_among(ids, date);
        let last = ids.last();
        assert forall|i: int| 0 <= i < r.len() implies {
            &&& ids.contains(#[trigger] r[i].room_id)
            &&& v.free_on(r[i].room_id, date)
            &&& r[i] == available_view(r[i].room_id, v.room(r[i].room_id))
        } by {
            if i < rest.len() {
                assert(r[i] == rest[i]);
                assert(front.contains(rest[i].room_id));
                let k = choose|k: int| 0 <= k < front.len() && front[k] == rest[i].room_id;
                assert(ids[k] == front[k]);
            } else {
                assert(r[i].room_id == last);
                assert(ids[ids.len() - 1] == last);
            }
        }
        assert forall|j: int| 0 <= j < ids.len() && v.free_on(#[trigger] ids[j], date) implies exists|
            i: int,
        | 0 <= i < r.len() && #[trigger] r[i].room_id == ids[j] by {
            if j < ids.len() - 1 {
                assert(front[j] == ids[j]);
                let i = choose|i: int| 0 <= i < rest.len() && #[trigger] rest[i].room_id == front[j];
                assert(r[i] == rest[i]);
            } else {
                assert(r[rest.len() as int].room_id == ids[j]);
            }
        }
        if ids.no_duplicates() {
            assert(front.no_duplicates());
            assert forall|a: int, b: int|
                0 <= a < r.len() && 0 <= b < r.len() && a != b implies #[trigger] r[a].room_id
                != #[trigger] r[b].room_id by {
                if a < rest.len() && b < rest.len() {
                    assert(r[a] == rest[a] && r[b] == rest[b]);
                } else if a < rest.len() {
                    assert(r[a] == rest[a]);
                    assert(front.contains(rest[a].room_id));
                    let k = choose|k: int| 0 <= k < front.len() && front[k] == rest[a].room_id;
                    assert(ids[k] == front[k]);
                    assert(r[b].room_id == ids[ids.len() - 1]);
                } else {
                    assert(r[b] == rest[b]);
                    assert(front.contains(rest[b].room_id));
                    let k = choose|k: int| 0 <= k < front.len() && front[k] == rest[b].room_id;
                    assert(ids[k] == front[k]);
                    assert(r[a].room_id == ids[ids.len() - 1]);
                }
            }
        }
    }
}

/// The available rooms for a date are exactly the rooms with no booking for
/// that date, whatever their status, each listed once with its own details.
pub proof fn law_available_rooms_are_the_free_rooms(v: ContractView, date: Seq<char>)
    requires
        v.rooms_by_id.wf(),
    ensures
        ({
            let r = v.available_rooms(date);
            &&& forall|i: int|
                0 <= i < r.len() ==> {
                    let room = v.rooms_by_id.map[#[trigger] r[i].room_id];
                    &&& v.rooms_by_id.map.dom().contains(r[i].room_id)
                    &&& !room.booked_info.map.dom().contains(date)
                    &&& r[i].owner_id == room.owner_id
                    &&& r[i].name == room.name
                    &&& r[i].image == room.image
                    &&& r[i].beds == room.beds
                    &&& r[i].description == room.description
                    &&& r[i].location == room.location
                    &&& r[i].price == room.price
                }
            &&& forall|id: Seq<char>|
                v.rooms_by_id.map.dom().contains(id) && !v.rooms_by_id.map[id].booked_info.map.dom().contains(
                    date,
                ) ==> exists|i: int| 0 <= i < r.len() && #[trigger] r[i].room_id == id
            &&& forall|a: int, b: int|
                0 <= a < r.len() && 0 <= b < r.len() && a != b ==> #[trigger] r[a].room_id
                    != #[trigger] r[b].room_id
        }),
{
    let ids = v.rooms_by_id.keys;
    lemma_available_among(v, ids, date);
    let r = v.available_rooms(date);
    assert forall|i: int| 0 <= i < r.len() implies v.has_room(#[trigger] r[i].room_id) by {
        assert(ids.contains(r[i].room_id));
    }
    assert forall|id: Seq<char>|
        v.rooms_by_id.map.dom().contains(id) && !v.rooms_by_id.map[id].booked_info.map.dom().contains(
            date,
        ) implies exists|i: int| 0 <= i < r.len() && #[trigger] r[i].room_id == id by {
        assert(ids.contains(id));
        let j = choose|j: int| 0 <= j < ids.len() && ids[j] == id;
        assert(v.free_on(ids[j], date));
    }
}

/// A room in a stay for one date is still listed as available for any
/// other date it has no booking for.
pub proof fn law_occupied_room_available_on_other_dates(
    v: ContractView,
    room_id: Seq<char>,
    stay_date: Seq<char>,
    date: Seq<char>,
)
    requires
        v.rooms_by_id.wf(),
        v.rooms_by_id.map.dom().contains(room_id),
        !v.rooms_by_id.map[room_id].booked_info.map.dom().contains(date),
    ensures
        exists|i: int|
            0 <= i < v.stay(room_id, stay_date).available_rooms(date).len()
                && #[trigger] v.stay(room_id, stay_date).available_rooms(date)[i].room_id == room_id,
{
    let w = v.stay(room_id, stay_date);
    v.rooms_by_id.lemma_insert_wf(room_id, w.room(room_id));
    law_available_rooms_are_the_free_rooms(w, date);
    assert(w.rooms_by_id.map.dom().contains(room_id));
    assert(w.rooms_by_id.map[room_id].booked_info == v.rooms_by_id.map[room_id].booked_info);
    assert(!w.rooms_by_id.map[room_id].booked_info.map.dom().contains(date));
}

/// A booked room is not available for the booked date.
pub proof fn law_booked_room_not_available(
    v: ContractView,
    guest_id: Seq<char>,
    room_id: Seq<char>,
    date: Seq<char>,
)
    ensures
        ({
            let r = v.book(guest_id, room_id, date).available_rooms(date);
            forall|i: int| 0 <= i < r.len() ==> (#[trigger] r[i]).room_id != room_id
        }),
{
    let w = v.book(guest_id, room_id, date);
    lemma_available_among(w, w.rooms_by_id.keys, date);
    assert(!w.free_on(room_id, date));
}

/// A booking shows among the guest's bookings, with the room's owner and name.
pub proof fn law_booking_listed_for_guest(
    v: ContractView,
    guest_id: Seq<char>,
    room_id: Seq<char>,
    date: Seq<char>,
)
    requires
        v.wf(),
        v.has_room(room_id),
    ensures
        exists|i: int|
            0 <= i < v.book(guest_id, room_id, date).guest_bookings(guest_id).len()
                && #[trigger] v.book(guest_id, room_id, date).guest_bookings(guest_id)[i] == (
            GuestBookedRoomView {
                owner_id: v.room(room_id).owner_id,
                name: v.room(room_id).name,
                check_in_date: date,
            }),
{
    let w = v.book(guest_id, room_id, date);
    let gm = w.bookings_per_guest.map[guest_id];
    if v.bookings_per_guest.contains_key(guest_id) {
        v.bookings_per_guest.map[guest_id].lemma_insert_wf(date, room_id);
    } else {
        OrdMap::<Seq<char>>::lemma_empty_wf();
        OrdMap::<Seq<char>>::empty().lemma_insert_wf(date, room_id);
    }
    assert(gm.map.contains_key(date));
    assert(gm.keys.contains(date));
    let i = choose|i: int| 0 <= i < gm.keys.len() && gm.keys[i] == date;
    assert(w.guest_bookings(guest_id)[i] == w.guest_view(gm, date));
}

/// Every booking of a listed room shows among the bookings of the list.
pub proof fn lemma_bookings_of_rooms_contains(v: ContractView, ids: Seq<Seq<char>>, j: int, k: int)
    requires
        0 <= j < ids.len(),
        0 <= k < room_bookings(ids[j], v.room(ids[j])).len(),
    ensures
        exists|i: int|
            0 <= i < v.bookings_of_rooms(ids).len() && #[trigger] v.bookings_of_rooms(ids)[i]
                == room_bookings(ids[j], v.room(ids[j]))[k],
    decreases ids.len(),
{
    let front = ids.drop_last();
    let rest = v.bookings_of_rooms(front);
    let all = v.bookings_of_rooms(ids);
    if j == ids.len() - 1 {
        let i = rest.len() + k;
        assert(all[i] == room_bookings(ids[j], v.room(ids[j]))[k]);
    } else {
        assert(front[j] == ids[j]);
        lemma_bookings_of_rooms_contains(v, front, j, k);
        let i = choose|i: int|
            0 <= i < rest.len() && #[trigger] rest[i] == room_bookings(front[j], v.room(front[j]))[k];
        assert(all[i] == rest[i]);
    }
}

/// A booking shows among the bookings of the room's owner, with the guest,
/// and with a stay only when the room is occupied for that date.
pub proof fn law_booking_listed_for_owner(
    v: ContractView,
    guest_id: Seq<char>,
    room_id: Seq<char>,
    date: Seq<char>,
)
    requires
        v.wf(),
        v.has_room(room_id),
    ensures
        ({
            let owner_bookings = v.book(guest_id, room_id, date).owner_bookings(
                v.room(room_id).owner_id,
            );
            exists|i: int|
                0 <= i < owner_bookings.len() && #[trigger] owner_bookings[i] == (BookedRoomView {
                    room_id,
                    name: v.room(room_id).name,
                    check_in_date: date,
                    guest_id,
                    status: booking_status(v.room(room_id).status, date),
                })
        }),
{
    let w = v.book(guest_id, room_id, date);
    let room = v.room(room_id);
    let owner_id = room.owner_id;
    assert(v.listed_by_owner(room_id));
    let ids = w.rooms_per_owner.map[owner_id];
    let j = choose|j: int| 0 <= j < ids.len() && ids[j] == room_id;
    let booked = w.room(room_id);
    room.booked_info.lemma_insert_wf(date, guest_id);
    assert(booked.booked_info.map.contains_key(date));
    assert(booked.booked_info.keys.contains(date));
    let k = choose|k: int| 0 <= k < booked.booked_info.keys.len() && booked.booked_info.keys[k] == date;
    lemma_bookings_of_rooms_contains(w, ids, j, k);
    let rb = room_bookings(room_id, booked);
    assert(rb[k] == booked_view(room_id, booked, date));
    assert(w.rooms_per_owner.contains_key(owner_id));
    assert(w.owner_bookings(owner_id) == w.bookings_of_rooms(ids));
    let i = choose|i: int|
        0 <= i < w.bookings_of_rooms(ids).len() && #[trigger] w.bookings_of_rooms(ids)[i]
            == room_bookings(ids[j], w.room(ids[j]))[k];
    assert(w.owner_bookings(owner_id)[i] == (BookedRoomView {
        room_id,
        name: room.name,
        check_in_date: date,
        guest_id,
        status: booking_status(room.status, date),
    }));
}

/// Ending a stay drops the booking for that date, from the room and from
/// the guest.
pub proof fn law_release_drops_booking(
    v: ContractView,
    room_id: Seq<char>,
    date: Seq<char>,
    guest_id: Seq<char>,
)
    requires
        v.wf(),
        v.can_release(room_id, date, guest_id),
    ensures
        ({
            let w = v.release(room_id, date, guest_id);
            let room_side = room_bookings(room_id, w.room(room_id));
            let guest_side = w.guest_bookings(guest_id);
            &&& forall|i: int|
                0 <= i < room_side.len() ==> (#[trigger] room_side[i]).check_in_date != date
            &&& forall|i: int|
                0 <= i < guest_side.len() ==> (#[trigger] guest_side[i]).check_in_date != date
        }),
{
    let w = v.release(room_id, date, guest_id);
    let freed = w.room(room_id).booked_info;
    v.room(room_id).booked_info.lemma_remove_wf(date);
    assert(!freed.keys.contains(date));
    let room_side = room_bookings(room_id, w.room(room_id));
    assert forall|i: int| 0 <= i < room_side.len() implies (#[trigger] room_side[i]).check_in_date
        != date by {
        assert(room_side[i].check_in_date == freed.keys[i]);
    }
    let left = v.bookings_per_guest.map[guest_id].remove(date);
    v.bookings_per_guest.map[guest_id].lemma_remove_wf(date);
    assert(!left.keys.contains(date));
    let guest_side = w.guest_bookings(guest_id);
    if left.keys.len() == 0 {
        assert(!w.bookings_per_guest.contains_key(guest_id));
    } else {
        assert forall|i: int| 0 <= i < guest_side.len() implies (#[trigger] guest_side[i]).check_in_date
            != date by {
            assert(guest_side[i].check_in_date == left.keys[i]);
        }
    }
}

/// Booking or ending a stay never leaves a guest with no bookings: a guest
/// whose last booking is dropped is dropped too.
pub proof fn law_guests_keep_bookings(
    v: ContractView,
    guest_id: Seq<char>,
    room_id: Seq<char>,
    date: Seq<char>,
)
    requires
        v.wf(),
    ensures
        v.has_room(room_id) ==> forall|g: Seq<char>| #[trigger]
            v.book(guest_id, room_id, date).bookings_per_guest.contains_key(g) ==> v.book(
                guest_id,
                room_id,
                date,
            ).bookings_per_guest.map[g].keys.len() > 0,
        v.can_release(room_id, date, guest_id) ==> forall|g: Seq<char>| #[trigger]
            v.release(room_id, date, guest_id).bookings_per_guest.contains_key(g) ==> v.release(
                room_id,
                date,
                guest_id,
            ).bookings_per_guest.map[g].keys.len() > 0,
{
    let b = v.book(guest_id, room_id, date);
    assert forall|g: Seq<char>| #[trigger]
        b.bookings_per_guest.contains_key(g) implies b.bookings_per_guest.map[g].keys.len() > 0 by {
        if g == guest_id {
            let m = b.bookings_per_guest.map[g];
            if v.bookings_per_guest.contains_key(g) {
                v.bookings_per_guest.map[g].lemma_insert_wf(date, room_id);
            } else {
                OrdMap::<Seq<char>>::lemma_empty_wf();
                OrdMap::<Seq<char>>::empty().lemma_insert_wf(date, room_id);
            }
            assert(m.map.contains_key(date));
            assert(m.keys.contains(date));
        } else {
            assert(v.bookings_per_guest.contains_key(g));
        }
    }
    if v.can_release(room_id, date, guest_id) {
        let r = v.release(room_id, date, guest_id);
        assert forall|g: Seq<char>| #[trigger]
            r.bookings_per_guest.contains_key(g) implies r.bookings_per_guest.map[g].keys.len()
            > 0 by {
            if g != guest_id {
                assert(v.bookings_per_guest.contains_key(g));
            }
        }
    }
}

/// A name counts as registered for an owner only through a room of that
/// owner with that name: it holds right after the owner registers it, and
/// it holds of no other owner whose id joined with another name gives the
/// same room id.
pub proof fn law_registered_name_belongs_to_owner(
    v: ContractView,
    owner_id: Seq<char>,
    name: Seq<char>,
    other_owner: Seq<char>,
    other_name: Seq<char>,
    image: Seq<char>,
    beds: u8,
    description: Seq<char>,
    location: Seq<char>,
    price: u128,
)
    requires
        v.wf(),
    ensures
        ({
            let w = v.add_room(owner_id, name, image, beds, description, location, price);
            &&& w.room_registered(owner_id, name)
            &&& (other_owner != owner_id && room_id_of(other_owner, other_name) == room_id_of(
                owner_id,
                name,
            )) ==> !w.room_registered(other_owner, other_name)
        }),
{
    let w = v.add_room(owner_id, name, image, beds, description, location, price);
    let id = room_id_of(owner_id, name);
    assert(w.has_room(id) && w.room(id).owner_id == owner_id && w.room(id).name == name);
    if other_owner != owner_id && room_id_of(other_owner, other_name) == id {
        if w.room_registered(other_owner, other_name) {
            let id2 = choose|id2: Seq<char>|
                #![trigger w.rooms_by_id.map[id2]]
                w.has_room(id2) && w.room(id2).owner_id == other_owner && w.room(id2).name
                    == other_name;
            if id2 != id {
                assert(v.rooms_by_id.contains_key(id2));
                assert(v.keyed_by_owner_and_name(id2));
            }
        }
    }
}

/// Registering a room stores it under the owner's id followed by its name,
/// with the given details, no bookings and not occupied; it appends that id
/// to the owner's list and touches no other room, list or booking.
pub proof fn law_add_room_effect(
    v: ContractView,
    owner_id: Seq<char>,
    name: Seq<char>,
    image: Seq<char>,
    beds: u8,
    description: Seq<char>,
    location: Seq<char>,
    price: u128,
)
    ensures
        ({
            let w = v.add_room(owner_id, name, image, beds, description, location, price);
            let id = owner_id + name;
            let room = w.rooms_by_id.map[id];
            let old_list = if v.rooms_per_owner.map.dom().contains(owner_id) {
                v.rooms_per_owner.map[owner_id]
            } else {
                Seq::empty()
            };
            &&& w.rooms_by_id.map.dom() == v.rooms_by_id.map.dom().insert(id)
            &&& room.owner_id == owner_id
            &&& room.name == name
            &&& room.image == image
            &&& room.beds == beds
            &&& room.description == description
            &&& room.location == location
            &&& room.price == price
            &&& room.status == StatusView::Available
            &&& room.booked_info.map.dom() == Set::<Seq<char>>::empty()
            &&& forall|id2: Seq<char>|
                id2 != id ==> #[trigger] w.rooms_by_id.map[id2] == v.rooms_by_id.map[id2]
            &&& w.rooms_per_owner.map.dom() == v.rooms_per_owner.map.dom().insert(owner_id)
            &&& w.rooms_per_owner.map[owner_id] == old_list + seq![id]
            &&& forall|o: Seq<char>|
                o != owner_id ==> #[trigger] w.rooms_per_owner.map[o] == v.rooms_per_owner.map[o]
            &&& w.bookings_per_guest == v.bookings_per_guest
        }),
{
    let w = v.add_room(owner_id, name, image, beds, description, location, price);
    let id = owner_id + name;
    assert(w.rooms_by_id.map.dom() =~= v.rooms_by_id.map.dom().insert(id));
    assert(w.rooms_per_owner.map.dom() =~= v.rooms_per_owner.map.dom().insert(owner_id));
    assert(w.rooms_by_id.map[id].booked_info.map.dom() =~= Set::<Seq<char>>::empty());
    if v.rooms_per_owner.map.dom().contains(owner_id) {
        assert(w.rooms_per_owner.map[owner_id] =~= v.rooms_per_owner.map[owner_id] + seq![id]);
    } else {
        assert(w.rooms_per_owner.map[owner_id] =~= Seq::<Seq<char>>::empty() + seq![id]);
    }
}

/// Booking records the guest on the room for the date and nothing else about
/// the room: its status, and so whether it is available, stays as it was. The
/// guest's bookings gain the date with the room; no other room, list or
/// guest changes.
pub proof fn law_book_effect(
    v: ContractView,
    guest_id: Seq<char>,
    room_id: Seq<char>,
    date: Seq<char>,
)
    requires
        v.rooms_by_id.map.dom().contains(room_id),
    ensures
        ({
            let w = v.book(guest_id, room_id, date);
            let before = v.rooms_by_id.map[room_id];
            let after = w.rooms_by_id.map[room_id];
            let old_bookings = if v.bookings_per_guest.map.dom().contains(guest_id) {
                v.bookings_per_guest.map[guest_id].map
            } else {
                Map::empty()
            };
            &&& w.rooms_by_id.map.dom() == v.rooms_by_id.map.dom()
            &&& after.status == before.status
            &&& after.booked_info.map == before.booked_info.map.insert(date, guest_id)
            &&& after.owner_id == before.owner_id
            &&& after.name == before.name
            &&& after.image == before.image
            &&& after.beds == before.beds
            &&& after.description == before.description
            &&& after.location == before.location
            &&& after.price == before.price
            &&& forall|id2: Seq<char>|
                id2 != room_id ==> #[trigger] w.rooms_by_id.map[id2] == v.rooms_by_id.map[id2]
            &&& w.rooms_per_owner == v.rooms_per_owner
            &&& w.bookings_per_guest.map.dom() == v.bookings_per_guest.map.dom().insert(guest_id)
            &&& w.bookings_per_guest.map[guest_id].map == old_bookings.insert(date, room_id)
            &&& forall|g: Seq<char>|
                g != guest_id ==> #[trigger] w.bookings_per_guest.map[g] == v.bookings_per_guest.map[g]
        }),
{
    let w = v.book(guest_id, room_id, date);
    assert(w.rooms_by_id.map.dom() =~= v.rooms_by_id.map.dom());
    assert(w.bookings_per_guest.map.dom() =~= v.bookings_per_guest.map.dom().insert(guest_id));
    if !v.bookings_per_guest.map.dom().contains(guest_id) {
        assert(w.bookings_per_guest.map[guest_id].map =~= Map::<Seq<char>, Seq<char>>::empty().insert(
            date,
            room_id,
        ));
    }
}

/// Marking a stay sets the room's status to a stay for the date and nothing
/// else; no other room, list or guest changes.
pub proof fn law_stay_effect(v: ContractView, room_id: Seq<char>, date: Seq<char>)
    requires
        v.rooms_by_id.map.dom().contains(room_id),
    ensures
        ({
            let w = v.stay(room_id, date);
            let before = v.rooms_by_id.map[room_id];
            let after = w.rooms_by_id.map[room_id];
            &&& w.rooms_by_id.map.dom() == v.rooms_by_id.map.dom()
            &&& after.status == StatusView::Stay { check_in_date: date }
            &&& after.booked_info == before.booked_info
            &&& after.owner_id == before.owner_id
            &&& after.name == before.name
            &&& after.image == before.image
            &&& after.beds == before.beds
            &&& after.description == before.description
            &&& after.location == before.location
            &&& after.price == before.price
            &&& forall|id2: Seq<char>|
                id2 != room_id ==> #[trigger] w.rooms_by_id.map[id2] == v.rooms_by_id.map[id2]
            &&& w.rooms_per_owner == v.rooms_per_owner
            &&& w.bookings_per_guest == v.bookings_per_guest
        }),
{
    let w = v.stay(room_id, date);
    assert(w.rooms_by_id.map.dom() =~= v.rooms_by_id.map.dom());
}

/// Ending a stay drops only the room's booking for that date, whatever the
/// room's status was, and marks the room not occupied; the guest loses only
/// that date, and is dropped when it was the guest's only booking. No other
/// room, list or guest changes.
pub proof fn law_release_effect(
    v: ContractView,
    room_id: Seq<char>,
    date: Seq<char>,
    guest_id: Seq<char>,
)
    requires
        v.wf(),
        v.can_release(room_id, date, guest_id),
    ensures
        ({
            let w = v.release(room_id, date, guest_id);
            let before = v.rooms_by_id.map[room_id];
            let after = w.rooms_by_id.map[room_id];
            let old_bookings = v.bookings_per_guest.map[guest_id].map;
            &&& w.rooms_by_id.map.dom() == v.rooms_by_id.map.dom()
            &&& after.booked_info.map == before.booked_info.map.remove(date)
            &&& after.status == StatusView::Available
            &&& after.owner_id == before.owner_id
            &&& after.name == before.name
            &&& after.image == before.image
            &&& after.beds == before.beds
            &&& after.description == before.description
            &&& after.location == before.location
            &&& after.price == before.price
            &&& forall|id2: Seq<char>|
                id2 != room_id ==> #[trigger] w.rooms_by_id.map[id2] == v.rooms_by_id.map[id2]
            &&& w.rooms_per_owner == v.rooms_per_owner
            &&& old_bookings.dom() == set![date] ==> w.bookings_per_guest.map.dom()
                == v.bookings_per_guest.map.dom().remove(guest_id)
            &&& old_bookings.dom() != set![date] ==> {
                &&& w.bookings_per_guest.map.dom() == v.bookings_per_guest.map.dom()
                &&& w.bookings_per_guest.map[guest_id].map == old_bookings.remove(date)
            }
            &&& forall|g: Seq<char>|
                g != guest_id ==> #[trigger] w.bookings_per_guest.map[g] == v.bookings_per_guest.map[g]
        }),
{
    let w = v.release(room_id, date, guest_id);
    assert(w.rooms_by_id.map.dom() =~= v.rooms_by_id.map.dom());
    let gm = v.bookings_per_guest.map[guest_id];
    assert(gm.wf());
    gm.lemma_remove_wf(date);
    let left = gm.remove(date);
    if gm.map.dom() == set![date] {
        assert(left.map.dom() =~= Set::<Seq<char>>::empty());
        if left.keys.len() > 0 {
            assert(left.keys.contains(left.keys[0]));
            assert(left.map.dom().contains(left.keys[0]));
        }
        assert(w.bookings_per_guest.map.dom() =~= v.bookings_per_guest.map.dom().remove(guest_id));
    } else {
        if left.keys.len() == 0 {
            assert(gm.map.dom() =~= set![date]) by {
                assert forall|d2: Seq<char>| gm.map.dom().contains(d2) implies d2 == date by {
                    if d2 != date {
                        assert(left.map.dom().contains(d2));
                        assert(left.keys.contains(d2));
                    }
                }
            }
        }
        assert(w.bookings_per_guest.map.dom() =~= v.bookings_per_guest.map.dom());
    }
}

/// Every entry of an owner's booking list is a booking of one of the owner's
/// listed rooms: it names a booked date of that room, its guest is the guest
/// booked on the room for that date, its name is the room's, and its status
/// is a stay exactly when the room is occupied for that very date, and
/// available otherwise (in particular, always when the room is not occupied).
pub proof fn law_owner_booking_entries(v: ContractView, owner_id: Seq<char>)
    requires
        v.wf(),
    ensures
        ({
            let list = v.owner_bookings(owner_id);
            forall|i: int|
                0 <= i < list.len() ==> {
                    let e = #[trigger] list[i];
                    let room = v.rooms_by_id.map[e.room_id];
                    &&& v.rooms_per_owner.map.dom().contains(owner_id)
                    &&& v.rooms_per_owner.map[owner_id].contains(e.room_id)
                    &&& v.rooms_by_id.map.dom().contains(e.room_id)
                    &&& room.booked_info.map.dom().contains(e.check_in_date)
                    &&& e.guest_id == room.booked_info.map[e.check_in_date]
                    &&& e.name == room.name
                    &&& e.status == if room.status == (StatusView::Stay {
                        check_in_date: e.check_in_date,
                    }) {
                        room.status
                    } else {
                        StatusView::Available
                    }
                    &&& room.status == StatusView::Available ==> e.status == StatusView::Available
                }
        }),
{
    if v.rooms_per_owner.map.dom().contains(owner_id) {
        let ids = v.rooms_per_owner.map[owner_id];
        lemma_bookings_of_rooms_entries(v, ids);
        let list = v.owner_bookings(owner_id);
        assert forall|i: int| 0 <= i < list.len() implies v.rooms_by_id.map.dom().contains(
            (#[trigger] list[i]).room_id,
        ) && v.rooms_by_id.map[list[i].room_id].booked_info.map.dom().contains(
            list[i].check_in_date,
        ) by {
            let id = list[i].room_id;
            let k = choose|k: int| 0 <= k < ids.len() && ids[k] == id;
            assert(v.has_room(v.rooms_per_owner.map[owner_id][k]));
            assert(v.room(id).booked_info.wf());
        }
    }
}

/// What each entry of `bookings_of_rooms` is made of.
pub proof fn lemma_bookings_of_rooms_entries(v: ContractView, ids: Seq<Seq<char>>)
    ensures
        ({
            let list = v.bookings_of_rooms(ids);
            forall|i: int|
                0 <= i < list.len() ==> {
                    let e = #[trigger] list[i];
                    let room = v.rooms_by_id.map[e.room_id];
                    &&& ids.contains(e.room_id)
                    &&& room.booked_info.keys.contains(e.check_in_date)
                    &&& e.guest_id == room.booked_info.map[e.check_in_date]
                    &&& e.name == room.name
                    &&& e.status == if room.status == (StatusView::Stay {
                        check_in_date: e.check_in_date,
                    }) {
                        room.status
                    } else {
                        StatusView::Available
                    }
                }
        }),
    decreases ids.len(),
{
    if ids.len() > 0 {
        let front = ids.drop_last();
        lemma_bookings_of_rooms_entries(v, front);
        let rest = v.bookings_of_rooms(front);
        let last = ids.last();
        let rb = room_bookings(last, v.room(last));
        let list = v.bookings_of_rooms(ids);
        assert forall|i: int| 0 <= i < list.len() implies {
            let e = #[trigger] list[i];
            let room = v.rooms_by_id.map[e.room_id];
            &&& ids.contains(e.room_id)
            &&& room.booked_info.keys.contains(e.check_in_date)
            &&& e.guest_id == room.booked_info.map[e.check_in_date]
            &&& e.name == room.name
            &&& e.status == if room.status == (StatusView::Stay {
                check_in_date: e.check_in_date,
            }) {
                room.status
            } else {
                StatusView::Available
            }
        } by {
            if i < rest.len() {
                assert(list[i] == rest[i]);
                let k = choose|k: int| 0 <= k < front.len() && front[k] == rest[i].room_id;
                assert(ids[k] == front[k]);
            } else {
                let k = i - rest.len();
                assert(list[i] == rb[k]);
                let room = v.room(last);
                assert(rb[k] == booked_view(last, room, room.booked_info.keys[k]));
                assert(room.booked_info.keys.contains(room.booked_info.keys[k]));
                assert(ids[ids.len() - 1] == last);
            }
        }
    }
}

/// Whether an owner registered a room of a name depends only on the rooms
/// stored, not on their status or bookings: it holds exactly when some room
/// has that owner and that name, and booking, marking a stay and ending a
/// stay leave it as it was.
pub proof fn law_registration_ignores_status(
    v: ContractView,
    owner_id: Seq<char>,
    name: Seq<char>,
    guest_id: Seq<char>,
    room_id: Seq<char>,
    date: Seq<char>,
)
    requires
        v.wf(),
        v.rooms_by_id.map.dom().contains(room_id),
    ensures
        v.room_registered(owner_id, name) <==> exists|id: Seq<char>|
            v.rooms_by_id.map.dom().contains(id) && #[trigger] v.rooms_by_id.map[id].owner_id
                == owner_id && v.rooms_by_id.map[id].name == name,
        v.stay(room_id, date).room_registered(owner_id, name) == v.room_registered(owner_id, name),
        v.book(guest_id, room_id, date).room_registered(owner_id, name) == v.room_registered(
            owner_id,
            name,
        ),
        v.can_release(room_id, date, guest_id) ==> v.release(
            room_id,
            date,
            guest_id,
        ).room_registered(owner_id, name) == v.room_registered(owner_id, name),
{
    lemma_same_rooms_same_registration(v, v.stay(room_id, date), owner_id, name);
    lemma_same_rooms_same_registration(v, v.book(guest_id, room_id, date), owner_id, name);
    lemma_same_rooms_same_registration(v, v.release(room_id, date, guest_id), owner_id, name);
    if v.room_registered(owner_id, name) {
        let id = choose|id: Seq<char>|
            #![trigger v.rooms_by_id.map[id]]
            v.has_room(id) && v.room(id).owner_id == owner_id && v.room(id).name == name;
        assert(v.rooms_by_id.map[id].owner_id == owner_id);
    }
}

/// Two states with the same rooms, owners and names agree on registration.
pub proof fn lemma_same_rooms_same_registration(
    v: ContractView,
    w: ContractView,
    owner_id: Seq<char>,
    name: Seq<char>,
)
    requires
        forall|id: Seq<char>|
            #![trigger w.rooms_by_id.map[id]]
            #![trigger v.rooms_by_id.map[id]]
            w.rooms_by_id.map.dom().contains(id) == v.rooms_by_id.map.dom().contains(id) && (
            v.rooms_by_id.map.dom().contains(id) ==> w.rooms_by_id.map[id].owner_id
                == v.rooms_by_id.map[id].owner_id && w.rooms_by_id.map[id].name
                == v.rooms_by_id.map[id].name),
    ensures
        w.room_registered(owner_id, name) == v.room_registered(owner_id, name),
{
    if v.room_registered(owner_id, name) {
        let id = choose|id: Seq<char>|
            #![trigger v.rooms_by_id.map[id]]
            v.has_room(id) && v.room(id).owner_id == owner_id && v.room(id).name == name;
        assert(w.rooms_by_id.map[id].owner_id == owner_id);
    }
    if w.room_registered(owner_id, name) {
        let id = choose|id: Seq<char>|
            #![trigger w.rooms_by_id.map[id]]
            w.has_room(id) && w.room(id).owner_id == owner_id && w.room(id).name == name;
        assert(v.rooms_by_id.map[id].owner_id == owner_id);
    }
}

/// An owner's registered rooms are the rooms of the owner's list, one entry
/// per listed id in list order, each with that room's details and status.
pub proof fn law_registered_rooms_entries(v: ContractView, owner_id: Seq<char>)
    ensures
        ({
            let r = v.registered_rooms(owner_id);
            let ids = if v.rooms_per_owner.map.dom().contains(owner_id) {
                v.rooms_per_owner.map[owner_id]
            } else {
                Seq::empty()
            };
            &&& r.len() == ids.len()
            &&& forall|i: int|
                0 <= i < r.len() ==> {
                    let room = v.rooms_by_id.map[ids[i]];
                    &&& (#[trigger] r[i]).name == room.name
                    &&& r[i].image == room.image
                    &&& r[i].beds == room.beds
                    &&& r[i].description == room.description
                    &&& r[i].location == room.location
                    &&& r[i].price == room.price
                    &&& r[i].status == room.status
                }
        }),
{
}

/// An owner's booking list holds every booking of every room the owner
/// lists; when the owner lists each room once, it holds each booking once.
pub proof fn law_owner_bookings_complete_and_distinct(v: ContractView, owner_id: Seq<char>)
    requires
        v.wf(),
        v.rooms_per_owner.map.dom().contains(owner_id),
    ensures
        ({
            let list = v.owner_bookings(owner_id);
            let ids = v.rooms_per_owner.map[owner_id];
            &&& forall|id: Seq<char>, d: Seq<char>|
                ids.contains(id) && #[trigger] v.rooms_by_id.map[id].booked_info.map.dom().contains(d)
                    ==> exists|i: int|
                    0 <= i < list.len() && (#[trigger] list[i]).room_id == id
                        && list[i].check_in_date == d
            &&& ids.no_duplicates() ==> forall|a: int, b: int|
                0 <= a < list.len() && 0 <= b < list.len() && a != b ==> (#[trigger] list[a]).room_id
                    != (#[trigger] list[b]).room_id || list[a].check_in_date != list[b].check_in_date
        }),
{
    let ids = v.rooms_per_owner.map[owner_id];
    let list = v.owner_bookings(owner_id);
    assert forall|id: Seq<char>, d: Seq<char>|
        ids.contains(id) && #[trigger] v.rooms_by_id.map[id].booked_info.map.dom().contains(d)
            implies exists|i: int|
        0 <= i < list.len() && (#[trigger] list[i]).room_id == id && list[i].check_in_date == d by {
        let j = choose|j: int| 0 <= j < ids.len() && ids[j] == id;
        assert(v.has_room(v.rooms_per_owner.map[owner_id][j]));
        let room = v.room(id);
        assert(room.booked_info.wf());
        assert(room.booked_info.keys.contains(d));
        let k = choose|k: int| 0 <= k < room.booked_info.keys.len() && room.booked_info.keys[k] == d;
        lemma_bookings_of_rooms_contains(v, ids, j, k);
        let i = choose|i: int|
            0 <= i < v.bookings_of_rooms(ids).len() && #[trigger] v.bookings_of_rooms(ids)[i]
                == room_bookings(ids[j], v.room(ids[j]))[k];
        assert(list[i].room_id == id && list[i].check_in_date == d);
    }
    if ids.no_duplicates() {
        assert forall|j: int| 0 <= j < ids.len() implies v.room(#[trigger] ids[j]).booked_info.wf() by {
            assert(v.has_room(v.rooms_per_owner.map[owner_id][j]));
        }
        lemma_bookings_of_rooms_distinct(v, ids);
    }
}

/// Bookings of distinct rooms with well-formed booking maps are distinct.
pub proof fn lemma_bookings_of_rooms_distinct(v: ContractView, ids: Seq<Seq<char>>)
    requires
        ids.no_duplicates(),
        forall|j: int| 0 <= j < ids.len() ==> v.room(#[trigger] ids[j]).booked_info.wf(),
    ensures
        ({
            let list = v.bookings_of_rooms(ids);
            forall|a: int, b: int|
                0 <= a < list.len() && 0 <= b < list.len() && a != b ==> (#[trigger] list[a]).room_id
                    != (#[trigger] list[b]).room_id || list[a].check_in_date != list[b].check_in_date
        }),
    decreases ids.len(),
{
    if ids.len() > 0 {
        let front = ids.drop_last();
        assert forall|j: int| 0 <= j < front.len() implies v.room(#[trigger] front[j]).booked_info.wf() by {
            assert(front[j] == ids[j]);
        }
        lemma_bookings_of_rooms_distinct(v, front);
        lemma_bookings_of_rooms_entries(v, front);
        let rest = v.bookings_of_rooms(front);
        let last = ids.last();
        assert(v.room(ids[ids.len() - 1]).booked_info.wf());
        let room = v.room(last);
        let rb = room_bookings(last, room);
        let list = v.bookings_of_rooms(ids);
        assert forall|a: int, b: int|
            0 <= a < list.len() && 0 <= b < list.len() && a != b implies (#[trigger] list[a]).room_id
            != (#[trigger] list[b]).room_id || list[a].check_in_date != list[b].check_in_date by {
            if a < rest.len() && b < rest.len() {
                assert(list[a] == rest[a] && list[b] == rest[b]);
            } else if a >= rest.len() && b >= rest.len() {
                assert(list[a] == rb[a - rest.len()] && list[b] == rb[b - rest.len()]);
                assert(room.booked_info.keys[a - rest.len()] != room.booked_info.keys[b
                    - rest.len()]);
            } else {
                let (x, y) = if a < rest.len() { (a, b) } else { (b, a) };
                assert(list[x] == rest[x]);
                assert(list[y] == rb[y - rest.len()]);
                assert(front.contains(rest[x].room_id));
                let k = choose|k: int| 0 <= k < front.len() && front[k] == rest[x].room_id;
                assert(ids[k] == front[k]);
                assert(list[y].room_id == last);
            }
        }
    }
}

/// A guest's bookings list each of the guest's booked dates once, with the
/// owner and the name of the room booked for that date.
pub proof fn law_guest_bookings_entries(v: ContractView, guest_id: Seq<char>)
    requires
        v.wf(),
    ensures
        ({
            let r = v.guest_bookings(guest_id);
            let booked = if v.bookings_per_guest.map.dom().contains(guest_id) {
                v.bookings_per_guest.map[guest_id].map
            } else {
                Map::empty()
            };
            &&& forall|i: int|
                0 <= i < r.len() ==> {
                    let room = v.rooms_by_id.map[booked[(#[trigger] r[i]).check_in_date]];
                    &&& booked.dom().contains(r[i].check_in_date)
                    &&& v.rooms_by_id.map.dom().contains(booked[r[i].check_in_date])
                    &&& r[i].owner_id == room.owner_id
                    &&& r[i].name == room.name
                }
            &&& forall|d: Seq<char>|
                #[trigger] booked.dom().contains(d) ==> exists|i: int|
                    0 <= i < r.len() && (#[trigger] r[i]).check_in_date == d
            &&& forall|a: int, b: int|
                0 <= a < r.len() && 0 <= b < r.len() && a != b ==> (#[trigger] r[a]).check_in_date
                    != (#[trigger] r[b]).check_in_date
        }),
{
    if v.bookings_per_guest.map.dom().contains(guest_id) {
        let gm = v.bookings_per_guest.map[guest_id];
        assert(gm.wf());
        let r = v.guest_bookings(guest_id);
        assert forall|i: int| 0 <= i < r.len() implies gm.map.dom().contains(
            (#[trigger] r[i]).check_in_date,
        ) && v.rooms_by_id.map.dom().contains(gm.map[r[i].check_in_date]) by {
            assert(r[i].check_in_date == gm.keys[i]);
            assert(gm.keys.contains(gm.keys[i]));
            assert(v.bookings_per_guest.contains_key(guest_id));
            assert(v.bookings_per_guest.map[guest_id].contains_key(gm.keys[i]));
            assert(v.has_room(gm.map[gm.keys[i]]));
        }
        assert forall|d: Seq<char>| #[trigger] gm.map.dom().contains(d) implies exists|i: int|
            0 <= i < r.len() && (#[trigger] r[i]).check_in_date == d by {
            assert(gm.keys.contains(d));
            let i = choose|i: int| 0 <= i < gm.keys.len() && gm.keys[i] == d;
            assert(r[i].check_in_date == d);
        }
    }
}

/// A room is available exactly when it is not occupied.
pub proof fn law_is_available_means_not_occupied(v: ContractView, room_id: Seq<char>)
    ensures
        v.is_available(room_id) == (v.rooms_by_id.map[room_id].status == StatusView::Available),
{
}

/// A booking is accepted exactly for an existing room and a deposit equal to
/// its price; ending a stay exactly when the room has a booking for the date
/// and the guest has a booking for the date.
pub proof fn law_preconditions_meaning(
    v: ContractView,
    room_id: Seq<char>,
    deposit: u128,
    date: Seq<char>,
    guest_id: Seq<char>,
)
    ensures
        v.can_book(room_id, deposit) == (v.rooms_by_id.map.dom().contains(room_id) && deposit
            == v.rooms_by_id.map[room_id].price),
        v.can_release(room_id, date, guest_id) == (v.rooms_by_id.map.dom().contains(room_id)
            && v.rooms_by_id.map[room_id].booked_info.map.dom().contains(date)
            && v.bookings_per_guest.map.dom().contains(guest_id)
            && v.bookings_per_guest.map[guest_id].map.dom().contains(date)),
        (v.release_error(room_id, date, guest_id) is None) == v.can_release(room_id, date, guest_id),
{
}

/// A refused request to end a stay names the first missing piece, checked in
/// this order: the room, the room's booking for the date, the guest, the
/// guest's booking for the date.
pub proof fn law_release_error_order(
    v: ContractView,
    room_id: Seq<char>,
    date: Seq<char>,
    guest_id: Seq<char>,
)
    ensures
        ({
            let e = v.release_error(room_id, date, guest_id);
            let has_room = v.rooms_by_id.map.dom().contains(room_id);
            let room_booked = has_room && v.rooms_by_id.map[room_id].booked_info.map.dom().contains(
                date,
            );
            let has_guest = v.bookings_per_guest.map.dom().contains(guest_id);
            let guest_booked = has_guest && v.bookings_per_guest.map[guest_id].map.dom().contains(
                date,
            );
            &&& (e == Some(ContractError::NotFoundRoom)) == !has_room
            &&& (e == Some(ContractError::NotFoundDate)) == (has_room && !room_booked)
            &&& (e == Some(ContractError::NotFoundGuest)) == (room_booked && !has_guest)
            &&& (e == Some(ContractError::NotFoundBooked)) == (room_booked && has_guest
                && !guest_booked)
        }),
{
}

/// The messages the contract fails with.
pub proof fn law_error_messages()
    ensures
        ContractError::NotFoundRoom.text() == "ERR_NOT_FOUND_ROOM"@,
        ContractError::NotFoundDate.text() == "ERR_NOT_FOUND_DATE"@,
        ContractError::NotFoundGuest.text() == "ERR_NOT_FOUND_GUEST"@,
        ContractError::NotFoundBooked.text() == "ERR_NOT_FOUND_BOOKED"@,
{
}

} // verus!
