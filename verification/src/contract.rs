//! The booking contract: its state and its operations.
use vstd::prelude::*;
use vstd::string::StringExecFns;
use crate::model::{
    available_view, booked_view, booking_status, registered_view, room_bookings, room_id_of,
    ContractView,
};
use crate::strmap::{OrdMap, StrMap};
use crate::types::{
    AvailableRoom, BookedRoom, BookedRoomView, ContractError, GuestBookedRoom, GuestBookedRoomView, RegisteredRoom, RegisteredRoomView, Room,
    RoomView, StatusView, Transfer, TransferView,
    UsageStatus,
};

verus! {

/// The status that a booking for `date` shows, given the room's status.
fn status_for_date(status: &UsageStatus, date: &String) -> (r: UsageStatus)
    ensures
        r.deep_view() == booking_status(status.deep_view(), date@),
{
    match status {
        UsageStatus::Available => UsageStatus::Available,
        UsageStatus::Stay { check_in_date } => {
            if *date == *check_in_date {
                UsageStatus::Stay { check_in_date: check_in_date.clone() }
            } else {
                UsageStatus::Available
            }
        },
    }
}

/// Whether the list holds the id.
fn contains_id(list: &Vec<String>, id: &String) -> (b: bool)
    ensures
        b == list.deep_view().contains(id@),
{
    let n = list.len();
    let mut i: usize = 0;
    while i < n
        invariant
            n == list@.len(),
            i <= n,
            forall|j: int| 0 <= j < i ==> list@[j]@ != id@,
        decreases n - i,
    {
        if list[i] == *id {
            proof {
                assert(list.deep_view()[i as int] == id@);
            }
            return true;
        }
        i = i + 1;
    }
    proof {
        if list.deep_view().contains(id@) {
            let j = choose|j: int| 0 <= j < list.deep_view().len() && list.deep_view()[j] == id@;
            assert(list@[j]@ == id@);
        }
    }
    false
}

/// The state of the booking contract.
pub struct Contract {
    /// Owner account id to the ids of the rooms it registered, in order.
    pub rooms_per_owner: StrMap<Vec<String>>,
    /// Room id to room.
    pub rooms_by_id: StrMap<Room>,
    /// Guest account id to its bookings: check-in date to room id.
    pub bookings_per_guest: StrMap<StrMap<String>>,
}

impl View for Contract {
    type V = ContractView;

    open spec fn view(&self) -> ContractView {
        ContractView {
            rooms_per_owner: self.rooms_per_owner.model(),
            rooms_by_id: self.rooms_by_id.model(),
            bookings_per_guest: self.bookings_per_guest.model(),
        }
    }
}

impl Contract {
    /// The maps, and the maps inside them, are well formed.
    pub open spec fn maps_wf(&self) -> bool {
        &&& self.rooms_per_owner.wf()
        &&& self.rooms_by_id.wf()
        &&& self.bookings_per_guest.wf()
        &&& forall|i: int|
            0 <= i < self.rooms_by_id.vals@.len() ==> (#[trigger] self.rooms_by_id.vals@[i]).booked_info.wf()
        &&& forall|i: int|
            0 <= i < self.bookings_per_guest.vals@.len() ==> (
            #[trigger] self.bookings_per_guest.vals@[i]).wf()
    }

    pub open spec fn wf(&self) -> bool {
        &&& self.maps_wf()
        &&& self@.wf()
    }

    /// Well-formed maps give well-formed models, inside and out.
    pub proof fn lemma_maps(&self)
        requires
            self.maps_wf(),
        ensures
            self@.rooms_per_owner.wf(),
            self@.rooms_by_id.wf(),
            self@.bookings_per_guest.wf(),
            forall|id: Seq<char>| #[trigger]
                self@.rooms_by_id.contains_key(id) ==> self@.rooms_by_id.map[id].booked_info.wf(),
            forall|g: Seq<char>| #[trigger]
                self@.bookings_per_guest.contains_key(g) ==> self@.bookings_per_guest.map[g].wf(),
    {
        self.rooms_per_owner.lemma_model();
        self.rooms_by_id.lemma_model();
        self.bookings_per_guest.lemma_model();
        assert forall|id: Seq<char>| #[trigger]
            self@.rooms_by_id.contains_key(id) implies self@.rooms_by_id.map[id].booked_info.wf() by {
            let kv = self.rooms_by_id.key_views();
            let j = choose|j: int| 0 <= j < kv.len() && kv[j] == id;
            assert(self@.rooms_by_id.map[id] == self.rooms_by_id.vals@[j].deep_view());
            self.rooms_by_id.vals@[j].booked_info.lemma_model();
        }
        assert forall|g: Seq<char>| #[trigger]
            self@.bookings_per_guest.contains_key(g) implies self@.bookings_per_guest.map[g].wf() by {
            let kv = self.bookings_per_guest.key_views();
            let j = choose|j: int| 0 <= j < kv.len() && kv[j] == g;
            assert(self@.bookings_per_guest.map[g] == self.bookings_per_guest.vals@[j].deep_view());
            self.bookings_per_guest.vals@[j].lemma_model();
        }
    }

    /// Whether the maps, and the maps inside them, are well formed.
    fn check_maps(&self) -> (b: bool)
        ensures
            b == self.maps_wf(),
    {
        if !self.rooms_per_owner.check_wf() || !self.rooms_by_id.check_wf()
            || !self.bookings_per_guest.check_wf() {
            return false;
        }
        let n = self.rooms_by_id.vals.len();
        let mut i: usize = 0;
        while i < n
            invariant
                n == self.rooms_by_id.vals@.len(),
                i <= n,
                forall|j: int| 0 <= j < i ==> (#[trigger] self.rooms_by_id.vals@[j]).booked_info.wf(),
            decreases n - i,
        {
            if !self.rooms_by_id.vals[i].booked_info.check_wf() {
                return false;
            }
            i = i + 1;
        }
        let n = self.bookings_per_guest.vals.len();
        let mut i: usize = 0;
        while i < n
            invariant
                n == self.bookings_per_guest.vals@.len(),
                i <= n,
                forall|j: int| 0 <= j < i ==> (#[trigger] self.bookings_per_guest.vals@[j]).wf(),
            decreases n - i,
        {
            if !self.bookings_per_guest.vals[i].check_wf() {
                return false;
            }
            i = i + 1;
        }
        true
    }

    /// Whether every guest keeps at least one booking.
    fn check_guests_nonempty(&self) -> (b: bool)
        requires
            self.maps_wf(),
        ensures
            b == forall|g: Seq<char>| #[trigger]
                self@.bookings_per_guest.contains_key(g) ==> self@.bookings_per_guest.map[g].keys.len()
                    > 0,
    {
        proof {
            self.bookings_per_guest.lemma_model();
        }
        let ghost kv = self.bookings_per_guest.key_views();
        let n = self.bookings_per_guest.vals.len();
        let mut i: usize = 0;
        while i < n
            invariant
                self.maps_wf(),
                kv == self.bookings_per_guest.key_views(),
                n == self.bookings_per_guest.vals@.len(),
                i <= n,
                forall|j: int|
                    0 <= j < i ==> (#[trigger] self.bookings_per_guest.vals@[j]).keys@.len() > 0,
            decreases n - i,
        {
            proof {
                self.bookings_per_guest.vals@[i as int].lemma_model();
                self.bookings_per_guest.lemma_model();
            }
            if self.bookings_per_guest.vals[i].len() == 0 {
                proof {
                    assert(self@.bookings_per_guest.contains_key(kv[i as int]));
                }
                return false;
            }
            i = i + 1;
        }
        proof {
            assert forall|g: Seq<char>| #[trigger]
                self@.bookings_per_guest.contains_key(g) implies self@.bookings_per_guest.map[g].keys.len()
                > 0 by {
                let j = choose|j: int| 0 <= j < kv.len() && kv[j] == g;
                self.bookings_per_guest.vals@[j].lemma_model();
            }
        }
        true
    }

    /// Whether every room id that an owner lists names a room.
    fn check_listed_rooms_exist(&self) -> (b: bool)
        requires
            self.maps_wf(),
        ensures
            b == forall|o: Seq<char>, i: int| #[trigger]
                self@.rooms_per_owner.contains_key(o) && 0 <= i < self@.rooms_per_owner.map[o].len()
                    ==> self@.has_room(#[trigger] self@.rooms_per_owner.map[o][i]),
    {
        proof {
            self.rooms_per_owner.lemma_model();
        }
        let ghost kv = self.rooms_per_owner.key_views();
        let n = self.rooms_per_owner.vals.len();
        let mut k: usize = 0;
        while k < n
            invariant
                self.maps_wf(),
                kv == self.rooms_per_owner.key_views(),
                n == self.rooms_per_owner.vals@.len(),
                k <= n,
                forall|j: int, i: int|
                    0 <= j < k && 0 <= i < self.rooms_per_owner.vals@[j]@.len() ==> self@.has_room(
                        (#[trigger] self.rooms_per_owner.vals@[j]@[i])@,
                    ),
            decreases n - k,
        {
            let list = &self.rooms_per_owner.vals[k];
            let m = list.len();
            let mut i: usize = 0;
            while i < m
                invariant
                    self.maps_wf(),
                    kv == self.rooms_per_owner.key_views(),
                    n == self.rooms_per_owner.vals@.len(),
                    k < n,
                    *list == self.rooms_per_owner.vals@[k as int],
                    m == list@.len(),
                    i <= m,
                    forall|j: int, i2: int|
                        0 <= j < k && 0 <= i2 < self.rooms_per_owner.vals@[j]@.len() ==> self@.has_room(
                            (#[trigger] self.rooms_per_owner.vals@[j]@[i2])@,
                        ),
                    forall|i2: int| 0 <= i2 < i ==> self@.has_room((#[trigger] list@[i2])@),
                decreases m - i,
            {
                if !self.rooms_by_id.contains_key(&list[i]) {
                    proof {
                        self.rooms_per_owner.lemma_model();
                        let o = kv[k as int];
                        assert(self@.rooms_per_owner.contains_key(o));
                        assert(self@.rooms_per_owner.map[o] == list.deep_view());
                        assert(self@.rooms_per_owner.map[o][i as int] == list@[i as int]@);
                    }
                    return false;
                }
                i = i + 1;
            }
            k = k + 1;
        }
        proof {
            assert forall|o: Seq<char>, i: int| #[trigger]
                self@.rooms_per_owner.contains_key(o) && 0 <= i < self@.rooms_per_owner.map[o].len()
                    implies self@.has_room(#[trigger] self@.rooms_per_owner.map[o][i]) by {
                let j = choose|j: int| 0 <= j < kv.len() && kv[j] == o;
                assert(self@.rooms_per_owner.map[o] == self.rooms_per_owner.vals@[j].deep_view());
                assert(self@.rooms_per_owner.map[o][i] == self.rooms_per_owner.vals@[j]@[i]@);
            }
        }
        true
    }

    /// Whether every room id that a guest has booked names a room.
    fn check_booked_rooms_exist(&self) -> (b: bool)
        requires
            self.maps_wf(),
        ensures
            b == forall|g: Seq<char>, d: Seq<char>| #[trigger]
                self@.bookings_per_guest.contains_key(g)
                    && #[trigger] self@.bookings_per_guest.map[g].contains_key(d) ==> self@.has_room(
                    self@.bookings_per_guest.map[g].map[d],
                ),
    {
        proof {
            self.bookings_per_guest.lemma_model();
        }
        let ghost kv = self.bookings_per_guest.key_views();
        let n = self.bookings_per_guest.vals.len();
        let mut k: usize = 0;
        while k < n
            invariant
                self.maps_wf(),
                kv == self.bookings_per_guest.key_views(),
                n == self.bookings_per_guest.vals@.len(),
                k <= n,
                forall|j: int, i: int|
                    0 <= j < k && 0 <= i < self.bookings_per_guest.vals@[j].vals@.len()
                        ==> self@.has_room((#[trigger] self.bookings_per_guest.vals@[j].vals@[i])@),
            decreases n - k,
        {
            let bookings = &self.bookings_per_guest.vals[k];
            let m = bookings.vals.len();
            let mut i: usize = 0;
            while i < m
                invariant
                    self.maps_wf(),
                    kv == self.bookings_per_guest.key_views(),
                    n == self.bookings_per_guest.vals@.len(),
                    k < n,
                    *bookings == self.bookings_per_guest.vals@[k as int],
                    m == bookings.vals@.len(),
                    i <= m,
                    forall|j: int, i2: int|
                        0 <= j < k && 0 <= i2 < self.bookings_per_guest.vals@[j].vals@.len()
                            ==> self@.has_room(
                            (#[trigger] self.bookings_per_guest.vals@[j].vals@[i2])@,
                        ),
                    forall|i2: int| 0 <= i2 < i ==> self@.has_room((#[trigger] bookings.vals@[i2])@),
                decreases m - i,
            {
                if !self.rooms_by_id.contains_key(&bookings.vals[i]) {
                    proof {
                        self.bookings_per_guest.lemma_model();
                        assert(bookings.wf());
                        bookings.lemma_model();
                        let g = kv[k as int];
                        let d = bookings.key_views()[i as int];
                        assert(self@.bookings_per_guest.contains_key(g));
                        assert(self@.bookings_per_guest.map[g] == bookings.model());
                        assert(bookings.model().contains_key(d));
                        assert(bookings.model().map[d] == bookings.vals@[i as int]@);
                    }
                    return false;
                }
                i = i + 1;
            }
            k = k + 1;
        }
        proof {
            assert forall|g: Seq<char>, d: Seq<char>| #[trigger]
                self@.bookings_per_guest.contains_key(g)
                    && #[trigger] self@.bookings_per_guest.map[g].contains_key(d) implies self@.has_room(
                self@.bookings_per_guest.map[g].map[d],
            ) by {
                let j = choose|j: int| 0 <= j < kv.len() && kv[j] == g;
                let bookings = self.bookings_per_guest.vals@[j];
                assert(self@.bookings_per_guest.map[g] == bookings.model());
                assert(bookings.wf());
                bookings.lemma_model();
                let bkv = bookings.key_views();
                let i = choose|i: int| 0 <= i < bkv.len() && bkv[i] == d;
                assert(bookings.model().map[d] == bookings.vals@[i]@);
            }
        }
        true
    }

    /// Whether every room is listed by its owner.
    fn check_rooms_listed(&self) -> (b: bool)
        requires
            self.maps_wf(),
        ensures
            b == forall|id: Seq<char>| #[trigger]
                self@.rooms_by_id.contains_key(id) ==> self@.listed_by_owner(id),
    {
        proof {
            self.rooms_by_id.lemma_model();
        }
        let ghost kv = self.rooms_by_id.key_views();
        let n = self.rooms_by_id.vals.len();
        let mut r: usize = 0;
        while r < n
            invariant
                self.maps_wf(),
                kv == self.rooms_by_id.key_views(),
                n == self.rooms_by_id.vals@.len(),
                r <= n,
                forall|j: int| 0 <= j < r ==> self@.listed_by_owner(#[trigger] kv[j]),
            decreases n - r,
        {
            proof {
                self.rooms_by_id.lemma_model();
            }
            let room = &self.rooms_by_id.vals[r];
            let room_id = &self.rooms_by_id.keys[r];
            assert(self@.room(kv[r as int]) == room.deep_view());
            proof {
                assert(self@.rooms_by_id.contains_key(kv[r as int]));
                assert(kv[r as int] == room_id@);
            }
            match self.rooms_per_owner.get(&room.owner_id) {
                None => {
                    proof {
                        assert(!self@.listed_by_owner(kv[r as int]));
                    }
                    return false;
                },
                Some(list) => {
                    if !contains_id(list, room_id) {
                        proof {
                            assert(!self@.listed_by_owner(kv[r as int]));
                        }
                        return false;
                    }
                },
            }
            r = r + 1;
        }
        proof {
            assert forall|id: Seq<char>| #[trigger]
                self@.rooms_by_id.contains_key(id) implies self@.listed_by_owner(id) by {
                let j = choose|j: int| 0 <= j < kv.len() && kv[j] == id;
                assert(self@.listed_by_owner(kv[j]));
            }
        }
        true
    }

    /// Whether every room is stored under its owner's id followed by its name.
    fn check_rooms_keyed(&self) -> (b: bool)
        requires
            self.maps_wf(),
        ensures
            b == forall|id: Seq<char>| #[trigger]
                self@.rooms_by_id.contains_key(id) ==> self@.keyed_by_owner_and_name(id),
    {
        proof {
            self.rooms_by_id.lemma_model();
        }
        let ghost kv = self.rooms_by_id.key_views();
        let n = self.rooms_by_id.vals.len();
        let mut r: usize = 0;
        while r < n
            invariant
                self.maps_wf(),
                kv == self.rooms_by_id.key_views(),
                n == self.rooms_by_id.vals@.len(),
                r <= n,
                forall|j: int| 0 <= j < r ==> self@.keyed_by_owner_and_name(#[trigger] kv[j]),
            decreases n - r,
        {
            proof {
                self.rooms_by_id.lemma_model();
            }
            let room = &self.rooms_by_id.vals[r];
            let mut expected = room.owner_id.clone();
            expected.append(room.name.as_str());
            assert(self@.room(kv[r as int]) == room.deep_view());
            if !(self.rooms_by_id.keys[r] == expected) {
                proof {
                    assert(self@.rooms_by_id.contains_key(kv[r as int]));
                    assert(!self@.keyed_by_owner_and_name(kv[r as int]));
                }
                return false;
            }
            r = r + 1;
        }
        proof {
            assert forall|id: Seq<char>| #[trigger]
                self@.rooms_by_id.contains_key(id) implies self@.keyed_by_owner_and_name(id) by {
                let j = choose|j: int| 0 <= j < kv.len() && kv[j] == id;
                assert(self@.keyed_by_owner_and_name(kv[j]));
            }
        }
        true
    }

    /// Whether the state is well formed: what every operation needs and
    /// keeps. A state read back from storage can be checked with it.
    pub fn check_wf(&self) -> (b: bool)
        ensures
            b == self.wf(),
    {
        if !self.check_maps() {
            return false;
        }
        proof {
            self.lemma_maps();
        }
        self.check_guests_nonempty() && self.check_listed_rooms_exist()
            && self.check_booked_rooms_exist() && self.check_rooms_listed()
            && self.check_rooms_keyed()
    }

    /// Registers a room for its owner, with the room id made of the owner's
    /// account id followed by the room's name. A room with the same id is
    /// replaced, bookings included, and the id is appended to the owner's
    /// list again.
    pub fn add_room_to_owner(
        &mut self,
        owner_id: String,
        name: String,
        image: String,
        beds: u8,
        description: String,
        location: String,
        price: u128,
    )
        requires
            old(self).wf(),
        ensures
            final(self).wf(),
            final(self)@ == old(self)@.add_room(
                owner_id@,
                name@,
                image@,
                beds,
                description@,
                location@,
                price,
            ),
    {
        let ghost old_c = *self;
        let mut room_id = owner_id.clone();
        room_id.append(name.as_str());
        let booked_info: StrMap<String> = StrMap::new();
        let new_room = Room {
            owner_id: owner_id.clone(),
            name,
            image,
            beds,
            description,
            location,
            price,
            status: UsageStatus::Available,
            booked_info,
        };
        self.rooms_by_id.insert(room_id.clone(), new_room);
        proof {
            assert forall|i: int| 0 <= i < self.rooms_by_id.vals@.len() implies (
            #[trigger] self.rooms_by_id.vals@[i]).booked_info.wf() by {
                if self.rooms_by_id.vals@[i] != new_room {
                    let o = choose|o: int|
                        0 <= o < old_c.rooms_by_id.vals@.len() && old_c.rooms_by_id.vals@[o]
                            == self.rooms_by_id.vals@[i];
                    assert(old_c.rooms_by_id.vals@[o].booked_info.wf());
                }
            }
        }
        let ghost mid = *self;
        match self.rooms_per_owner.find(&owner_id) {
            Some(i) => {
                self.rooms_per_owner.vals[i].push(room_id);
                proof {
                    StrMap::lemma_update_at(
                        &mid.rooms_per_owner,
                        &self.rooms_per_owner,
                        i as int,
                        self.rooms_per_owner.vals@[i as int],
                    );
                    mid.rooms_per_owner.lemma_model();
                    assert(self.rooms_per_owner.vals@[i as int].deep_view()
                        =~= mid.rooms_per_owner.vals@[i as int].deep_view().push(room_id@));
                }
            },
            None => {
                let mut ids: Vec<String> = Vec::new();
                ids.push(room_id);
                proof {
                    assert(ids.deep_view() =~= seq![room_id@]);
                }
                self.rooms_per_owner.insert(owner_id, ids);
            },
        }
        proof {
            self.lemma_maps();
            let v0 = old_c@;
            let v1 = self@;
            assert(v1 == v0.add_room(
                owner_id@,
                name@,
                image@,
                beds,
                description@,
                location@,
                price,
            ));
            assert forall|o: Seq<char>, i: int| #[trigger]
                v1.rooms_per_owner.contains_key(o) && 0 <= i < v1.rooms_per_owner.map[o].len()
                    implies v1.has_room(#[trigger] v1.rooms_per_owner.map[o][i]) by {
                let id = room_id_of(owner_id@, name@);
                assert(v1.has_room(id));
                if v0.rooms_per_owner.contains_key(o) && i < v0.rooms_per_owner.map[o].len() {
                    assert(v1.rooms_per_owner.map[o][i] == v0.rooms_per_owner.map[o][i]);
                    assert(v0.has_room(v0.rooms_per_owner.map[o][i]));
                } else {
                    assert(o == owner_id@);
                    assert(v1.rooms_per_owner.map[o][i] == id);
                }
            }
            assert forall|id2: Seq<char>| #[trigger]
                v1.rooms_by_id.contains_key(id2) implies v1.keyed_by_owner_and_name(id2) by {
                if id2 != room_id_of(owner_id@, name@) {
                    assert(v0.rooms_by_id.contains_key(id2));
                    assert(v0.keyed_by_owner_and_name(id2));
                }
            }
            assert forall|id2: Seq<char>| #[trigger]
                v1.rooms_by_id.contains_key(id2) implies v1.listed_by_owner(id2) by {
                let id = room_id_of(owner_id@, name@);
                let list = v1.rooms_per_owner.map[owner_id@];
                if id2 == id {
                    assert(list[list.len() - 1] == id);
                } else {
                    assert(v0.rooms_by_id.contains_key(id2));
                    assert(v0.listed_by_owner(id2));
                    let o2 = v0.room(id2).owner_id;
                    assert(v1.room(id2).owner_id == o2);
                    if o2 == owner_id@ {
                        let old_list = v0.rooms_per_owner.map[o2];
                        let k = choose|k: int| 0 <= k < old_list.len() && old_list[k] == id2;
                        assert(list[k] == id2);
                    }
                }
            }
        }
    }

    /// Records, on the guest, the room booked for the date.
    fn add_booking_to_guest(&mut self, guest_id: String, room_id: String, check_in_date: String)
        requires
            old(self).maps_wf(),
        ensures
            final(self).maps_wf(),
            final(self).rooms_per_owner == old(self).rooms_per_owner,
            final(self).rooms_by_id == old(self).rooms_by_id,
            final(self)@.bookings_per_guest == old(self)@.bookings_per_guest.insert(
                guest_id@,
                if old(self)@.bookings_per_guest.contains_key(guest_id@) {
                    old(self)@.bookings_per_guest.map[guest_id@].insert(check_in_date@, room_id@)
                } else {
                    OrdMap::empty().insert(check_in_date@, room_id@)
                },
            ),
    {
        let ghost c0 = *self;
        proof {
            self.bookings_per_guest.lemma_model();
        }
        match self.bookings_per_guest.find(&guest_id) {
            Some(g) => {
                self.bookings_per_guest.vals[g].insert(check_in_date, room_id);
                proof {
                    StrMap::lemma_update_at(
                        &c0.bookings_per_guest,
                        &self.bookings_per_guest,
                        g as int,
                        self.bookings_per_guest.vals@[g as int],
                    );
                    assert forall|i: int| 0 <= i < self.bookings_per_guest.vals@.len() implies (
                    #[trigger] self.bookings_per_guest.vals@[i]).wf() by {
                        if i != g as int {
                            assert(self.bookings_per_guest.vals@[i]
                                == c0.bookings_per_guest.vals@[i]);
                        }
                    }
                }
            },
            None => {
                let mut m: StrMap<String> = StrMap::new();
                m.insert(check_in_date, room_id);
                self.bookings_per_guest.insert(guest_id, m);
                proof {
                    assert forall|i: int| 0 <= i < self.bookings_per_guest.vals@.len() implies (
                    #[trigger] self.bookings_per_guest.vals@[i]).wf() by {
                        if self.bookings_per_guest.vals@[i] != m {
                            let o = choose|o: int|
                                0 <= o < c0.bookings_per_guest.vals@.len()
                                    && c0.bookings_per_guest.vals@[o]
                                    == self.bookings_per_guest.vals@[i];
                            assert(c0.bookings_per_guest.vals@[o].wf());
                        }
                    }
                }
            },
        }
    }

    /// Books the room for the date on behalf of `signer_id`, who attached
    /// `deposit`; the deposit goes to the room's owner, and the transfer to
    /// make is returned.
    pub fn book_room(
        &mut self,
        signer_id: String,
        deposit: u128,
        room_id: String,
        check_in_date: String,
    ) -> (t: Transfer)
        requires
            old(self).wf(),
            old(self)@.can_book(room_id@, deposit),
        ensures
            final(self).wf(),
            final(self)@ == old(self)@.book(signer_id@, room_id@, check_in_date@),
            t.deep_view() == (TransferView {
                receiver_id: old(self)@.room(room_id@).owner_id,
                amount: deposit,
            }),
    {
        let ghost c0 = *self;
        proof {
            self.rooms_by_id.lemma_model();
        }
        let i = self.rooms_by_id.find(&room_id).unwrap();
        let owner_id = self.rooms_by_id.vals[i].owner_id.clone();
        self.rooms_by_id.vals[i].booked_info.insert(check_in_date.clone(), signer_id.clone());
        proof {
            StrMap::lemma_update_at(
                &c0.rooms_by_id,
                &self.rooms_by_id,
                i as int,
                self.rooms_by_id.vals@[i as int],
            );
            assert forall|j: int| 0 <= j < self.rooms_by_id.vals@.len() implies (
            #[trigger] self.rooms_by_id.vals@[j]).booked_info.wf() by {
                if j != i as int {
                    assert(self.rooms_by_id.vals@[j] == c0.rooms_by_id.vals@[j]);
                }
            }
            assert(self.rooms_by_id.vals@[i as int].deep_view() =~= (RoomView {
                booked_info: c0@.room(room_id@).booked_info.insert(check_in_date@, signer_id@),
                ..c0@.room(room_id@)
            }));
        }
        self.add_booking_to_guest(signer_id, room_id, check_in_date);
        proof {
            self.lemma_maps();
            let v0 = c0@;
            let v1 = self@;
            assert(v1 == v0.book(signer_id@, room_id@, check_in_date@));
            assert forall|o: Seq<char>, k: int| #[trigger]
                v1.rooms_per_owner.contains_key(o) && 0 <= k < v1.rooms_per_owner.map[o].len()
                    implies v1.has_room(#[trigger] v1.rooms_per_owner.map[o][k]) by {
                assert(v0.has_room(v0.rooms_per_owner.map[o][k]));
            }
            assert forall|id2: Seq<char>| #[trigger]
                v1.rooms_by_id.contains_key(id2) implies v1.listed_by_owner(id2) by {
                assert(v0.rooms_by_id.contains_key(id2));
                assert(v0.listed_by_owner(id2));
                assert(v1.room(id2).owner_id == v0.room(id2).owner_id);
            }
            assert forall|g: Seq<char>, d: Seq<char>| #[trigger]
                v1.bookings_per_guest.contains_key(g)
                    && #[trigger] v1.bookings_per_guest.map[g].contains_key(d) implies v1.has_room(
                v1.bookings_per_guest.map[g].map[d],
            ) by {
                if g == signer_id@ && d == check_in_date@ {
                    assert(v1.bookings_per_guest.map[g].map[d] == room_id@);
                } else if g == signer_id@ {
                    assert(v0.bookings_per_guest.contains_key(g));
                    assert(v0.bookings_per_guest.map[g].contains_key(d));
                    assert(v1.bookings_per_guest.map[g].map[d] == v0.bookings_per_guest.map[g].map[d]);
                    assert(v0.has_room(v0.bookings_per_guest.map[g].map[d]));
                } else {
                    assert(v0.bookings_per_guest.contains_key(g));
                    assert(v0.bookings_per_guest.map[g].contains_key(d));
                    assert(v0.has_room(v0.bookings_per_guest.map[g].map[d]));
                }
            }
            assert forall|g: Seq<char>| #[trigger] v1.bookings_per_guest.contains_key(g) implies {
                &&& v1.bookings_per_guest.map[g].wf()
                &&& v1.bookings_per_guest.map[g].keys.len() > 0
            } by {
                if g == signer_id@ {
                    let m = v1.bookings_per_guest.map[g];
                    assert(m.map.contains_key(check_in_date@));
                    assert(m.keys.contains(check_in_date@));
                } else {
                    assert(v0.bookings_per_guest.contains_key(g));
                }
            }
        }
        Transfer { receiver_id: owner_id, amount: deposit }
    }

    /// Drops the guest's booking for the date, and the guest when no booking
    /// is left.
    fn remove_booking_from_guest(&mut self, guest_id: String, check_in_date: String)
        requires
            old(self).maps_wf(),
            old(self)@.bookings_per_guest.contains_key(guest_id@),
            old(self)@.bookings_per_guest.map[guest_id@].contains_key(check_in_date@),
        ensures
            final(self).maps_wf(),
            final(self).rooms_per_owner == old(self).rooms_per_owner,
            final(self).rooms_by_id == old(self).rooms_by_id,
            ({
                let left = old(self)@.bookings_per_guest.map[guest_id@].remove(check_in_date@);
                final(self)@.bookings_per_guest == if left.keys.len() == 0 {
                    old(self)@.bookings_per_guest.remove(guest_id@)
                } else {
                    old(self)@.bookings_per_guest.insert(guest_id@, left)
                }
            }),
    {
        let ghost c0 = *self;
        proof {
            self.bookings_per_guest.lemma_model();
        }
        let g = self.bookings_per_guest.find(&guest_id).unwrap();
        self.bookings_per_guest.vals[g].remove(&check_in_date);
        proof {
            StrMap::lemma_update_at(
                &c0.bookings_per_guest,
                &self.bookings_per_guest,
                g as int,
                self.bookings_per_guest.vals@[g as int],
            );
            assert forall|i: int| 0 <= i < self.bookings_per_guest.vals@.len() implies (
            #[trigger] self.bookings_per_guest.vals@[i]).wf() by {
                if i != g as int {
                    assert(self.bookings_per_guest.vals@[i] == c0.bookings_per_guest.vals@[i]);
                }
            }
        }
        let ghost c1 = *self;
        if self.bookings_per_guest.vals[g].len() == 0 {
            self.bookings_per_guest.remove(&guest_id);
            proof {
                assert(c1@.bookings_per_guest.remove(guest_id@) =~= c0@.bookings_per_guest.remove(
                    guest_id@,
                ));
                assert forall|i: int| 0 <= i < self.bookings_per_guest.vals@.len() implies (
                #[trigger] self.bookings_per_guest.vals@[i]).wf() by {
                    let o = choose|o: int|
                        0 <= o < c1.bookings_per_guest.vals@.len() && c1.bookings_per_guest.vals@[o]
                            == self.bookings_per_guest.vals@[i];
                    assert(c1.bookings_per_guest.vals@[o].wf());
                }
            }
        }
    }

    /// Ends the stay for the date: drops the room's booking for the date,
    /// marks the room available, and drops the guest's booking for the date.
    pub fn change_status_to_available(
        &mut self,
        room_id: String,
        check_in_date: String,
        guest_id: String,
    )
        requires
            old(self).wf(),
            old(self)@.can_release(room_id@, check_in_date@, guest_id@),
        ensures
            final(self).wf(),
            final(self)@ == old(self)@.release(room_id@, check_in_date@, guest_id@),
    {
        let ghost c0 = *self;
        proof {
            self.rooms_by_id.lemma_model();
        }
        let i = self.rooms_by_id.find(&room_id).unwrap();
        self.rooms_by_id.vals[i].booked_info.remove(&check_in_date);
        self.rooms_by_id.vals[i].status = UsageStatus::Available;
        proof {
            assert(self.rooms_by_id.vals@ =~= c0.rooms_by_id.vals@.update(
                i as int,
                self.rooms_by_id.vals@[i as int],
            ));
            StrMap::lemma_update_at(
                &c0.rooms_by_id,
                &self.rooms_by_id,
                i as int,
                self.rooms_by_id.vals@[i as int],
            );
            assert forall|j: int| 0 <= j < self.rooms_by_id.vals@.len() implies (
            #[trigger] self.rooms_by_id.vals@[j]).booked_info.wf() by {
                if j != i as int {
                    assert(self.rooms_by_id.vals@[j] == c0.rooms_by_id.vals@[j]);
                }
            }
            assert(self.rooms_by_id.vals@[i as int].deep_view() =~= (RoomView {
                booked_info: c0@.room(room_id@).booked_info.remove(check_in_date@),
                status: StatusView::Available,
                ..c0@.room(room_id@)
            }));
        }
        self.remove_booking_from_guest(guest_id, check_in_date);
        proof {
            self.lemma_maps();
            let v0 = c0@;
            let v1 = self@;
            let left = v0.bookings_per_guest.map[guest_id@].remove(check_in_date@);
            v0.bookings_per_guest.map[guest_id@].lemma_remove_wf(check_in_date@);
            assert(v1 == v0.release(room_id@, check_in_date@, guest_id@));
            assert forall|o: Seq<char>, k: int| #[trigger]
                v1.rooms_per_owner.contains_key(o) && 0 <= k < v1.rooms_per_owner.map[o].len()
                    implies v1.has_room(#[trigger] v1.rooms_per_owner.map[o][k]) by {
                assert(v0.has_room(v0.rooms_per_owner.map[o][k]));
            }
            assert forall|id2: Seq<char>| #[trigger]
                v1.rooms_by_id.contains_key(id2) implies v1.listed_by_owner(id2) by {
                assert(v0.rooms_by_id.contains_key(id2));
                assert(v0.listed_by_owner(id2));
                assert(v1.room(id2).owner_id == v0.room(id2).owner_id);
            }
            assert forall|g: Seq<char>, d: Seq<char>| #[trigger]
                v1.bookings_per_guest.contains_key(g)
                    && #[trigger] v1.bookings_per_guest.map[g].contains_key(d) implies v1.has_room(
                v1.bookings_per_guest.map[g].map[d],
            ) by {
                assert(v0.bookings_per_guest.contains_key(g));
                assert(v0.bookings_per_guest.map[g].contains_key(d));
                assert(v1.bookings_per_guest.map[g].map[d] == v0.bookings_per_guest.map[g].map[d]);
                assert(v0.has_room(v0.bookings_per_guest.map[g].map[d]));
            }
            assert forall|g: Seq<char>| #[trigger] v1.bookings_per_guest.contains_key(g) implies {
                &&& v1.bookings_per_guest.map[g].wf()
                &&& v1.bookings_per_guest.map[g].keys.len() > 0
            } by {
                assert(v0.bookings_per_guest.contains_key(g));
            }
        }
    }

    /// Marks the room as occupied for the date.
    pub fn change_status_to_stay(&mut self, room_id: String, check_in_date: String)
        requires
            old(self).wf(),
            old(self)@.has_room(room_id@),
        ensures
            final(self).wf(),
            final(self)@ == old(self)@.stay(room_id@, check_in_date@),
    {
        let ghost c0 = *self;
        proof {
            self.rooms_by_id.lemma_model();
        }
        let i = self.rooms_by_id.find(&room_id).unwrap();
        self.rooms_by_id.vals[i].status = UsageStatus::Stay { check_in_date };
        proof {
            StrMap::lemma_update_at(
                &c0.rooms_by_id,
                &self.rooms_by_id,
                i as int,
                self.rooms_by_id.vals@[i as int],
            );
            assert forall|j: int| 0 <= j < self.rooms_by_id.vals@.len() implies (
            #[trigger] self.rooms_by_id.vals@[j]).booked_info.wf() by {
                if j != i as int {
                    assert(self.rooms_by_id.vals@[j] == c0.rooms_by_id.vals@[j]);
                }
            }
            self.lemma_maps();
            let v0 = c0@;
            let v1 = self@;
            assert(v1 == v0.stay(room_id@, check_in_date@));
            assert forall|o: Seq<char>, k: int| #[trigger]
                v1.rooms_per_owner.contains_key(o) && 0 <= k < v1.rooms_per_owner.map[o].len()
                    implies v1.has_room(#[trigger] v1.rooms_per_owner.map[o][k]) by {
                assert(v0.has_room(v0.rooms_per_owner.map[o][k]));
            }
            assert forall|id2: Seq<char>| #[trigger]
                v1.rooms_by_id.contains_key(id2) implies v1.listed_by_owner(id2) by {
                assert(v0.rooms_by_id.contains_key(id2));
                assert(v0.listed_by_owner(id2));
                assert(v1.room(id2).owner_id == v0.room(id2).owner_id);
            }
            assert forall|g: Seq<char>, d: Seq<char>| #[trigger]
                v1.bookings_per_guest.contains_key(g)
                    && #[trigger] v1.bookings_per_guest.map[g].contains_key(d) implies v1.has_room(
                v1.bookings_per_guest.map[g].map[d],
            ) by {
                assert(v0.has_room(v0.bookings_per_guest.map[g].map[d]));
            }
        }
    }

    /// Whether the room is not occupied.
    pub fn is_available(&self, room_id: String) -> (b: bool)
        requires
            self.wf(),
            self@.has_room(room_id@),
        ensures
            b == self@.is_available(room_id@),
    {
        proof {
            self.rooms_by_id.lemma_model();
        }
        let i = self.rooms_by_id.find(&room_id).unwrap();
        self.rooms_by_id.vals[i].status.is_available()
    }

    /// The rooms that the owner registered, in the order of registration,
    /// each with its current status.
    pub fn get_rooms_registered_by_owner(&self, owner_id: String) -> (r: Vec<RegisteredRoom>)
        requires
            self.wf(),
        ensures
            r.deep_view() == self@.registered_rooms(owner_id@),
    {
        let mut registered_rooms: Vec<RegisteredRoom> = Vec::new();
        match self.rooms_per_owner.get(&owner_id) {
            Some(rooms) => {
                let ghost ids = rooms.deep_view();
                let n = rooms.len();
                let mut k: usize = 0;
                while k < n
                    invariant
                        self.wf(),
                        n == rooms@.len(),
                        ids == rooms.deep_view(),
                        ids == self@.rooms_per_owner.map[owner_id@],
                        self@.rooms_per_owner.contains_key(owner_id@),
                        k <= n,
                        registered_rooms.deep_view() =~= ids.take(k as int).map_values(
                            |id: Seq<char>| registered_view(self@.room(id)),
                        ),
                    decreases n - k,
                {
                    assert(ids[k as int] == rooms@[k as int]@);
                    assert(self@.has_room(self@.rooms_per_owner.map[owner_id@][k as int]));
                    let room = self.rooms_by_id.get(&rooms[k]).unwrap();
                    let registered_room = RegisteredRoom {
                        name: room.name.clone(),
                        beds: room.beds,
                        image: room.image.clone(),
                        description: room.description.clone(),
                        location: room.location.clone(),
                        price: room.price,
                        status: room.status.duplicate(),
                    };
                    let ghost before = registered_rooms.deep_view();
                    assert(registered_room.deep_view() == registered_view(self@.room(ids[k as int])));
                    registered_rooms.push(registered_room);
                    k = k + 1;
                    proof {
                        assert(registered_rooms.deep_view() =~= before.push(
                            registered_view(self@.room(ids[k - 1])),
                        ));
                        assert(ids.take(k as int) =~= ids.take(k - 1).push(ids[k - 1]));
                    }
                }
                proof {
                    assert(ids.take(n as int) =~= ids);
                }
                registered_rooms
            },
            None => {
                proof {
                    assert(registered_rooms.deep_view() =~= Seq::<RegisteredRoomView>::empty());
                }
                registered_rooms
            },
        }
    }

    /// The rooms that nobody booked for the date.
    pub fn get_available_rooms(&self, check_in_date: String) -> (r: Vec<AvailableRoom>)
        requires
            self.wf(),
        ensures
            r.deep_view() == self@.available_rooms(check_in_date@),
    {
        proof {
            self.rooms_by_id.lemma_model();
        }
        let ghost ids = self@.rooms_by_id.keys;
        let mut available_rooms: Vec<AvailableRoom> = Vec::new();
        let n = self.rooms_by_id.len();
        let mut k: usize = 0;
        while k < n
            invariant
                self.wf(),
                n == self.rooms_by_id.keys@.len(),
                ids == self@.rooms_by_id.keys,
                ids.len() == n,
                k <= n,
                available_rooms.deep_view() =~= self@.available_among(ids.take(k as int), check_in_date@),
            decreases n - k,
        {
            proof {
                self.rooms_by_id.lemma_model();
            }
            let room_id = &self.rooms_by_id.keys[k];
            let room = &self.rooms_by_id.vals[k];
            let ghost before = available_rooms.deep_view();
            assert(room.deep_view() == self@.room(ids[k as int]));
            assert(ids.take(k + 1).drop_last() =~= ids.take(k as int));
            if !room.booked_info.contains_key(&check_in_date) {
                let available_room = AvailableRoom {
                    room_id: room_id.clone(),
                    owner_id: room.owner_id.clone(),
                    name: room.name.clone(),
                    beds: room.beds,
                    image: room.image.clone(),
                    description: room.description.clone(),
                    location: room.location.clone(),
                    price: room.price,
                };
                available_rooms.push(available_room);
                proof {
                    assert(available_rooms.deep_view() =~= before.push(
                        available_view(ids[k as int], self@.room(ids[k as int])),
                    ));
                }
            }
            k = k + 1;
        }
        proof {
            assert(ids.take(n as int) =~= ids);
        }
        available_rooms
    }

    /// The bookings of the guest, each with the room's owner and name.
    pub fn get_booking_info_for_guest(&self, guest_id: String) -> (r: Vec<GuestBookedRoom>)
        requires
            self.wf(),
        ensures
            r.deep_view() == self@.guest_bookings(guest_id@),
    {
        proof {
            self.bookings_per_guest.lemma_model();
            self.lemma_maps();
        }
        let mut guest_info: Vec<GuestBookedRoom> = Vec::new();
        match self.bookings_per_guest.get(&guest_id) {
            Some(save_booked_info) => {
                let ghost bookings = self@.bookings_per_guest.map[guest_id@];
                let ghost dates = bookings.keys;
                proof {
                    let o = choose|o: int|
                        0 <= o < self.bookings_per_guest.vals@.len()
                            && self.bookings_per_guest.vals@[o] == *save_booked_info;
                    assert(self.bookings_per_guest.vals@[o].wf());
                    save_booked_info.lemma_model();
                }
                let n = save_booked_info.len();
                let mut k: usize = 0;
                while k < n
                    invariant
                        self.wf(),
                        save_booked_info.wf(),
                        save_booked_info.model() == bookings,
                        self@.bookings_per_guest.contains_key(guest_id@),
                        bookings == self@.bookings_per_guest.map[guest_id@],
                        dates == bookings.keys,
                        n == save_booked_info.keys@.len(),
                        k <= n,
                        guest_info.deep_view() =~= dates.take(k as int).map_values(
                            |d: Seq<char>| self@.guest_view(bookings, d),
                        ),
                    decreases n - k,
                {
                    proof {
                        save_booked_info.lemma_model();
                    }
                    let check_in_date = &save_booked_info.keys[k];
                    let room_id = &save_booked_info.vals[k];
                    assert(bookings.contains_key(dates[k as int]));
                    assert(self@.has_room(bookings.map[dates[k as int]]));
                    let room = self.rooms_by_id.get(room_id).unwrap();
                    let info = GuestBookedRoom {
                        owner_id: room.owner_id.clone(),
                        name: room.name.clone(),
                        check_in_date: check_in_date.clone(),
                    };
                    let ghost before = guest_info.deep_view();
                    assert(info.deep_view() == self@.guest_view(bookings, dates[k as int]));
                    guest_info.push(info);
                    k = k + 1;
                    proof {
                        assert(guest_info.deep_view() =~= before.push(
                            self@.guest_view(bookings, dates[k - 1]),
                        ));
                        assert(dates.take(k as int) =~= dates.take(k - 1).push(dates[k - 1]));
                    }
                }
                proof {
                    assert(dates.take(n as int) =~= dates);
                }
                guest_info
            },
            None => {
                proof {
                    assert(guest_info.deep_view() =~= Seq::<GuestBookedRoomView>::empty());
                }
                guest_info
            },
        }
    }

    /// The bookings of the rooms that the owner registered, room by room in
    /// the order of registration; each shows a stay only when the room is
    /// occupied for that booking's date.
    pub fn get_booking_info_for_owner(&self, owner_id: String) -> (r: Vec<BookedRoom>)
        requires
            self.wf(),
        ensures
            r.deep_view() == self@.owner_bookings(owner_id@),
    {
        proof {
            self.lemma_maps();
        }
        let mut booked_rooms: Vec<BookedRoom> = Vec::new();
        match self.rooms_per_owner.get(&owner_id) {
            Some(rooms) => {
                let ghost ids = rooms.deep_view();
                let n = rooms.len();
                let mut k: usize = 0;
                while k < n
                    invariant
                        self.wf(),
                        n == rooms@.len(),
                        ids == rooms.deep_view(),
                        ids == self@.rooms_per_owner.map[owner_id@],
                        self@.rooms_per_owner.contains_key(owner_id@),
                        k <= n,
                        booked_rooms.deep_view() =~= self@.bookings_of_rooms(ids.take(k as int)),
                    decreases n - k,
                {
                    let room_id = &rooms[k];
                    assert(ids[k as int] == room_id@);
                    assert(self@.has_room(self@.rooms_per_owner.map[owner_id@][k as int]));
                    let room = self.rooms_by_id.get(room_id).unwrap();
                    let ghost rv = self@.room(ids[k as int]);
                    let ghost done = booked_rooms.deep_view();
                    proof {
                        let o = choose|o: int|
                            0 <= o < self.rooms_by_id.vals@.len() && self.rooms_by_id.vals@[o]
                                == *room;
                        assert(self.rooms_by_id.vals@[o].booked_info.wf());
                        room.booked_info.lemma_model();
                    }
                    let m = room.booked_info.len();
                    let mut j: usize = 0;
                    while j < m
                        invariant
                            room.booked_info.wf(),
                            room.deep_view() == rv,
                            k < n,
                            ids.len() == n,
                            room_id@ == ids[k as int],
                            m == room.booked_info.keys@.len(),
                            j <= m,
                            booked_rooms.deep_view() =~= done + room_bookings(ids[k as int], rv).take(
                                j as int,
                            ),
                        decreases m - j,
                    {
                        proof {
                            room.booked_info.lemma_model();
                        }
                        let date = &room.booked_info.keys[j];
                        let guest_id = &room.booked_info.vals[j];
                        let booked_room = BookedRoom {
                            room_id: room_id.clone(),
                            name: room.name.clone(),
                            check_in_date: date.clone(),
                            guest_id: guest_id.clone(),
                            status: status_for_date(&room.status, date),
                        };
                        let ghost before = booked_rooms.deep_view();
                        assert(booked_room.deep_view() == booked_view(
                            ids[k as int],
                            rv,
                            rv.booked_info.keys[j as int],
                        ));
                        booked_rooms.push(booked_room);
                        j = j + 1;
                        proof {
                            let rb = room_bookings(ids[k as int], rv);
                            assert(rb.take(j as int) =~= rb.take(j - 1).push(rb[j - 1]));
                            assert(booked_rooms.deep_view() =~= before.push(rb[j - 1]));
                        }
                    }
                    k = k + 1;
                    proof {
                        let rb = room_bookings(ids[k - 1], rv);
                        assert(rb.take(m as int) =~= rb);
                        assert(ids.take(k as int).drop_last() =~= ids.take(k - 1));
                        assert(ids.take(k as int).last() == ids[k - 1]);
                    }
                }
                proof {
                    assert(ids.take(n as int) =~= ids);
                }
                booked_rooms
            },
            None => {
                proof {
                    assert(booked_rooms.deep_view() =~= Seq::<BookedRoomView>::empty());
                }
                booked_rooms
            },
        }
    }

    /// Whether a room has the id.
    pub fn has_room(&self, room_id: &String) -> (b: bool)
        requires
            self.wf(),
        ensures
            b == self@.has_room(room_id@),
    {
        self.rooms_by_id.contains_key(room_id)
    }

    /// The price of a night in the room, if the room exists: a booking must
    /// attach exactly this deposit.
    pub fn room_price(&self, room_id: &String) -> (r: Option<u128>)
        requires
            self.wf(),
        ensures
            r == if self@.has_room(room_id@) {
                Some(self@.room(room_id@).price)
            } else {
                None
            },
    {
        match self.rooms_by_id.get(room_id) {
            Some(room) => Some(room.price),
            None => None,
        }
    }

    /// Why ending the stay would be refused, if it would; `None` exactly
    /// when `change_status_to_available` may be called.
    pub fn release_error(&self, room_id: &String, check_in_date: &String, guest_id: &String) -> (r:
        Option<ContractError>)
        requires
            self.wf(),
        ensures
            r == self@.release_error(room_id@, check_in_date@, guest_id@),
            r is None <==> self@.can_release(room_id@, check_in_date@, guest_id@),
    {
        proof {
            self.rooms_by_id.lemma_model();
            self.bookings_per_guest.lemma_model();
        }
        match self.rooms_by_id.get(room_id) {
            None => Some(ContractError::NotFoundRoom),
            Some(room) => {
                proof {
                    let o = choose|o: int|
                        0 <= o < self.rooms_by_id.vals@.len() && self.rooms_by_id.vals@[o] == *room;
                    assert(self.rooms_by_id.vals@[o].booked_info.wf());
                }
                if !room.booked_info.contains_key(check_in_date) {
                    Some(ContractError::NotFoundDate)
                } else {
                    match self.bookings_per_guest.get(guest_id) {
                        None => Some(ContractError::NotFoundGuest),
                        Some(bookings) => {
                            proof {
                                let o = choose|o: int|
                                    0 <= o < self.bookings_per_guest.vals@.len()
                                        && self.bookings_per_guest.vals@[o] == *bookings;
                                assert(self.bookings_per_guest.vals@[o].wf());
                            }
                            if !bookings.contains_key(check_in_date) {
                                Some(ContractError::NotFoundBooked)
                            } else {
                                None
                            }
                        },
                    }
                }
            },
        }
    }

    /// Whether the owner registered a room of that name: the room stored
    /// under the owner's id followed by the name must have that owner and
    /// that name.
    pub fn room_exists(&self, owner_id: String, room_name: String) -> (b: bool)
        requires
            self.wf(),
        ensures
            b == self@.room_registered(owner_id@, room_name@),
    {
        let mut room_id = owner_id.clone();
        room_id.append(room_name.as_str());
        match self.rooms_by_id.get(&room_id) {
            Some(room) => {
                let b = room.owner_id == owner_id && room.name == room_name;
                proof {
                    if !b && self@.room_registered(owner_id@, room_name@) {
                        let id = choose|id: Seq<char>|
                            #![trigger self@.rooms_by_id.map[id]]
                            self@.has_room(id) && self@.room(id).owner_id == owner_id@
                                && self@.room(id).name == room_name@;
                        assert(self@.keyed_by_owner_and_name(id));
                        assert(id == room_id@);
                    }
                    if b {
                        assert(self@.room(room_id@).owner_id == owner_id@);
                    }
                }
                b
            },
            None => {
                proof {
                    if self@.room_registered(owner_id@, room_name@) {
                        let id = choose|id: Seq<char>|
                            #![trigger self@.rooms_by_id.map[id]]
                            self@.has_room(id) && self@.room(id).owner_id == owner_id@
                                && self@.room(id).name == room_name@;
                        assert(self@.keyed_by_owner_and_name(id));
                        assert(id == room_id@);
                    }
                }
                false
            },
        }
    }
}

impl Default for Contract {
    /// A contract with no rooms and no bookings.
    fn default() -> (c: Self)
        ensures
            c.wf(),
            c@ == ContractView::empty(),
    {
        let c = Contract {
            rooms_per_owner: StrMap::new(),
            rooms_by_id: StrMap::new(),
            bookings_per_guest: StrMap::new(),
        };
        proof {
            c.lemma_maps();
        }
        c
    }
}

} // verus!
