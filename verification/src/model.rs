//! The abstract state of the booking contract and what each operation does
//! to it and reads from it.
use vstd::prelude::*;
use crate::strmap::OrdMap;
use crate::types::{
    AvailableRoomView, BookedRoomView, ContractError, GuestBookedRoomView, RegisteredRoomView, RoomView, StatusView,
};

verus! {

/// A room is identified by its owner's account id followed by its name.
pub open spec fn room_id_of(owner_id: Seq<char>, name: Seq<char>) -> Seq<char> {
    owner_id + name
}

/// The status a booking shows: a stay only on the date the room is occupied for.
pub open spec fn booking_status(status: StatusView, date: Seq<char>) -> StatusView {
    match status {
        StatusView::Available => StatusView::Available,
        StatusView::Stay { check_in_date } => if check_in_date == date {
            StatusView::Stay { check_in_date }
        } else {
            StatusView::Available
        },
    }
}

pub open spec fn registered_view(room: RoomView) -> RegisteredRoomView {
    RegisteredRoomView {
        name: room.name,
        image: room.image,
        beds: room.beds,
        description: room.description,
        location: room.location,
        price: room.price,
        status: room.status,
    }
}

pub open spec fn available_view(room_id: Seq<char>, room: RoomView) -> AvailableRoomView {
    AvailableRoomView {
        room_id,
        owner_id: room.owner_id,
        name: room.name,
        image: room.image,
        beds: room.beds,
        description: room.description,
        location: room.location,
        price: room.price,
    }
}

pub open spec fn booked_view(room_id: Seq<char>, room: RoomView, date: Seq<char>) -> BookedRoomView {
    BookedRoomView {
        room_id,
        name: room.name,
        check_in_date: date,
        guest_id: room.booked_info.map[date],
        status: booking_status(room.status, date),
    }
}

/// The bookings of one room, in the order of its check-in dates.
pub open spec fn room_bookings(room_id: Seq<char>, room: RoomView) -> Seq<BookedRoomView> {
    room.booked_info.keys.map_values(|d: Seq<char>| booked_view(room_id, room, d))
}

/// The contract's state: the room ids of each owner, the rooms by id, and the
/// bookings of each guest (check-in date to room id).
#[verifier::ext_equal]
pub struct ContractView {
    pub rooms_per_owner: OrdMap<Seq<Seq<char>>>,
    pub rooms_by_id: OrdMap<RoomView>,
    pub bookings_per_guest: OrdMap<OrdMap<Seq<char>>>,
}

impl ContractView {
    pub open spec fn empty() -> Self {
        ContractView {
            rooms_per_owner: OrdMap::empty(),
            rooms_by_id: OrdMap::empty(),
            bookings_per_guest: OrdMap::empty(),
        }
    }

    pub open spec fn has_room(self, room_id: Seq<char>) -> bool {
        self.rooms_by_id.contains_key(room_id)
    }

    pub open spec fn room(self, room_id: Seq<char>) -> RoomView {
        self.rooms_by_id.map[room_id]
    }

    /// The invariant: the maps are well formed, every room id that an owner
    /// lists or a guest has booked names a room, every room is listed by its
    /// owner and stored under its owner's id followed by its name, and no
    /// guest keeps an empty set of bookings.
    pub open spec fn wf(self) -> bool {
        &&& self.rooms_per_owner.wf()
        &&& self.rooms_by_id.wf()
        &&& self.bookings_per_guest.wf()
        &&& forall|id: Seq<char>| #[trigger]
            self.rooms_by_id.contains_key(id) ==> self.rooms_by_id.map[id].booked_info.wf()
        &&& forall|g: Seq<char>| #[trigger]
            self.bookings_per_guest.contains_key(g) ==> {
                &&& self.bookings_per_guest.map[g].wf()
                &&& self.bookings_per_guest.map[g].keys.len() > 0
            }
        &&& forall|o: Seq<char>, i: int| #[trigger]
            self.rooms_per_owner.contains_key(o) && 0 <= i < self.rooms_per_owner.map[o].len()
                ==> self.has_room(#[trigger] self.rooms_per_owner.map[o][i])
        &&& forall|g: Seq<char>, d: Seq<char>| #[trigger]
            self.bookings_per_guest.contains_key(g) && #[trigger] self.bookings_per_guest.map[g].contains_key(d)
                ==> self.has_room(self.bookings_per_guest.map[g].map[d])
        &&& forall|id: Seq<char>| #[trigger]
            self.rooms_by_id.contains_key(id) ==> self.listed_by_owner(id)
        &&& forall|id: Seq<char>| #[trigger]
            self.rooms_by_id.contains_key(id) ==> self.keyed_by_owner_and_name(id)
    }

    /// The room's owner lists the room.
    pub open spec fn listed_by_owner(self, room_id: Seq<char>) -> bool {
        let owner_id = self.room(room_id).owner_id;
        &&& self.rooms_per_owner.contains_key(owner_id)
        &&& self.rooms_per_owner.map[owner_id].contains(room_id)
    }

    /// Registers a room (replacing one with the same id) and appends its id
    /// to its owner's list.
    pub open spec fn add_room(
        self,
        owner_id: Seq<char>,
        name: Seq<char>,
        image: Seq<char>,
        beds: u8,
        description: Seq<char>,
        location: Seq<char>,
        price: u128,
    ) -> Self {
        let id = room_id_of(owner_id, name);
        let room = RoomView {
            name,
            owner_id,
            image,
            beds,
            description,
            location,
            price,
            status: StatusView::Available,
            booked_info: OrdMap::empty(),
        };
        let ids = if self.rooms_per_owner.contains_key(owner_id) {
            self.rooms_per_owner.map[owner_id].push(id)
        } else {
            seq![id]
        };
        ContractView {
            rooms_per_owner: self.rooms_per_owner.insert(owner_id, ids),
            rooms_by_id: self.rooms_by_id.insert(id, room),
            bookings_per_guest: self.bookings_per_guest,
        }
    }

    /// The owner registered a room of that name.
    pub open spec fn room_registered(self, owner_id: Seq<char>, name: Seq<char>) -> bool {
        exists|id: Seq<char>|
            #![trigger self.rooms_by_id.map[id]]
            self.has_room(id) && self.room(id).owner_id == owner_id && self.room(id).name == name
    }

    /// The room is stored under its owner's id followed by its name.
    pub open spec fn keyed_by_owner_and_name(self, room_id: Seq<char>) -> bool {
        room_id == room_id_of(self.room(room_id).owner_id, self.room(room_id).name)
    }

    /// A booking needs an existing room and a deposit of exactly its price.
    pub open spec fn can_book(self, room_id: Seq<char>, deposit: u128) -> bool {
        self.has_room(room_id) && deposit == self.room(room_id).price
    }

    /// Records the guest on the room for the date, and the room on the guest
    /// for the date.
    pub open spec fn book(self, guest_id: Seq<char>, room_id: Seq<char>, date: Seq<char>) -> Self {
        let room = self.room(room_id);
        let booked = RoomView { booked_info: room.booked_info.insert(date, guest_id), ..room };
        let guest_bookings = if self.bookings_per_guest.contains_key(guest_id) {
            self.bookings_per_guest.map[guest_id].insert(date, room_id)
        } else {
            OrdMap::empty().insert(date, room_id)
        };
        ContractView {
            rooms_per_owner: self.rooms_per_owner,
            rooms_by_id: self.rooms_by_id.insert(room_id, booked),
            bookings_per_guest: self.bookings_per_guest.insert(guest_id, guest_bookings),
        }
    }

    /// Ending a stay needs the room, its booking for the date, and the
    /// guest's booking for the date.
    pub open spec fn can_release(self, room_id: Seq<char>, date: Seq<char>, guest_id: Seq<char>) -> bool {
        &&& self.has_room(room_id)
        &&& self.room(room_id).booked_info.contains_key(date)
        &&& self.bookings_per_guest.contains_key(guest_id)
        &&& self.bookings_per_guest.map[guest_id].contains_key(date)
    }

    /// The first reason, in the order the contract checks them, why ending
    /// the stay is refused.
    pub open spec fn release_error(self, room_id: Seq<char>, date: Seq<char>, guest_id: Seq<char>) -> Option<
        ContractError,
    > {
        if !self.has_room(room_id) {
            Some(ContractError::NotFoundRoom)
        } else if !self.room(room_id).booked_info.contains_key(date) {
            Some(ContractError::NotFoundDate)
        } else if !self.bookings_per_guest.contains_key(guest_id) {
            Some(ContractError::NotFoundGuest)
        } else if !self.bookings_per_guest.map[guest_id].contains_key(date) {
            Some(ContractError::NotFoundBooked)
        } else {
            None
        }
    }

    /// Drops the room's booking for the date, marks the room available, and
    /// drops the guest's booking for the date (and the guest, when that was
    /// the last one).
    pub open spec fn release(self, room_id: Seq<char>, date: Seq<char>, guest_id: Seq<char>) -> Self {
        let room = self.room(room_id);
        let freed = RoomView {
            booked_info: room.booked_info.remove(date),
            status: StatusView::Available,
            ..room
        };
        let left = self.bookings_per_guest.map[guest_id].remove(date);
        ContractView {
            rooms_per_owner: self.rooms_per_owner,
            rooms_by_id: self.rooms_by_id.insert(room_id, freed),
            bookings_per_guest: if left.keys.len() == 0 {
                self.bookings_per_guest.remove(guest_id)
            } else {
                self.bookings_per_guest.insert(guest_id, left)
            },
        }
    }

    /// Marks the room as occupied for the date.
    pub open spec fn stay(self, room_id: Seq<char>, date: Seq<char>) -> Self {
        let room = self.room(room_id);
        ContractView {
            rooms_by_id: self.rooms_by_id.insert(
                room_id,
                RoomView { status: StatusView::Stay { check_in_date: date }, ..room },
            ),
            ..self
        }
    }

    pub open spec fn is_available(self, room_id: Seq<char>) -> bool {
        self.room(room_id).status == StatusView::Available
    }

    /// The rooms that an owner registered, in the order of registration.
    pub open spec fn registered_rooms(self, owner_id: Seq<char>) -> Seq<RegisteredRoomView> {
        if self.rooms_per_owner.contains_key(owner_id) {
            self.rooms_per_owner.map[owner_id].map_values(
                |id: Seq<char>| registered_view(self.room(id)),
            )
        } else {
            Seq::empty()
        }
    }

    /// The bookings of the listed rooms, room by room.
    pub open spec fn bookings_of_rooms(self, ids: Seq<Seq<char>>) -> Seq<BookedRoomView>
        decreases ids.len(),
    {
        if ids.len() == 0 {
            Seq::empty()
        } else {
            self.bookings_of_rooms(ids.drop_last()) + room_bookings(
                ids.last(),
                self.room(ids.last()),
            )
        }
    }

    /// The bookings of all the rooms that an owner registered.
    pub open spec fn owner_bookings(self, owner_id: Seq<char>) -> Seq<BookedRoomView> {
        if self.rooms_per_owner.contains_key(owner_id) {
            self.bookings_of_rooms(self.rooms_per_owner.map[owner_id])
        } else {
            Seq::empty()
        }
    }

    pub open spec fn guest_view(self, bookings: OrdMap<Seq<char>>, date: Seq<char>) -> GuestBookedRoomView {
        let room = self.room(bookings.map[date]);
        GuestBookedRoomView { owner_id: room.owner_id, name: room.name, check_in_date: date }
    }

    /// The bookings of a guest, in the order of their check-in dates.
    pub open spec fn guest_bookings(self, guest_id: Seq<char>) -> Seq<GuestBookedRoomView> {
        if self.bookings_per_guest.contains_key(guest_id) {
            let bookings = self.bookings_per_guest.map[guest_id];
            bookings.keys.map_values(|d: Seq<char>| self.guest_view(bookings, d))
        } else {
            Seq::empty()
        }
    }

    pub open spec fn free_on(self, room_id: Seq<char>, date: Seq<char>) -> bool {
        !self.room(room_id).booked_info.contains_key(date)
    }

    /// The listed rooms that have no booking for the date, in list order.
    pub open spec fn available_among(self, ids: Seq<Seq<char>>, date: Seq<char>) -> Seq<
        AvailableRoomView,
    >
        decreases ids.len(),
    {
        if ids.len() == 0 {
            Seq::empty()
        } else {
            let rest = self.available_among(ids.drop_last(), date);
            if self.free_on(ids.last(), date) {
                rest.push(available_view(ids.last(), self.room(ids.last())))
            } else {
                rest
            }
        }
    }

    /// The rooms that have no booking for the date, in the order of their ids.
    pub open spec fn available_rooms(self, date: Seq<char>) -> Seq<AvailableRoomView> {
        self.available_among(self.rooms_by_id.keys, date)
    }
}

} // verus!
