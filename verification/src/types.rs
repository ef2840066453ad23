//! Rooms, usage statuses and the records that the queries hand out, each
//! with its abstract view.
use vstd::prelude::*;
use crate::strmap::{OrdMap, StrMap};

verus! {

/// Whether a room is free or occupied for a check-in date.
#[derive(Debug, PartialEq)]
pub enum UsageStatus {
    Available,
    Stay { check_in_date: String },
}

#[verifier::ext_equal]
pub enum StatusView {
    Available,
    Stay { check_in_date: Seq<char> },
}

impl DeepView for UsageStatus {
    type V = StatusView;

    open spec fn deep_view(&self) -> StatusView {
        match self {
            UsageStatus::Available => StatusView::Available,
            UsageStatus::Stay { check_in_date } => StatusView::Stay {
                check_in_date: check_in_date@,
            },
        }
    }
}

impl UsageStatus {
    /// A fresh value equal to this one.
    pub fn duplicate(&self) -> (r: UsageStatus)
        ensures
            r.deep_view() == self.deep_view(),
    {
        match self {
            UsageStatus::Available => UsageStatus::Available,
            UsageStatus::Stay { check_in_date } => UsageStatus::Stay {
                check_in_date: check_in_date.clone(),
            },
        }
    }

    pub fn is_available(&self) -> (b: bool)
        ensures
            b == (self.deep_view() == StatusView::Available),
    {
        match self {
            UsageStatus::Available => true,
            UsageStatus::Stay { .. } => false,
        }
    }
}

/// A room as its owner registered it, with its bookings: check-in date to guest.
pub struct Room {
    pub name: String,
    pub owner_id: String,
    pub image: String,
    pub beds: u8,
    pub description: String,
    pub location: String,
    pub price: u128,
    pub status: UsageStatus,
    pub booked_info: StrMap<String>,
}

#[verifier::ext_equal]
pub struct RoomView {
    pub name: Seq<char>,
    pub owner_id: Seq<char>,
    pub image: Seq<char>,
    pub beds: u8,
    pub description: Seq<char>,
    pub location: Seq<char>,
    pub price: u128,
    pub status: StatusView,
    pub booked_info: OrdMap<Seq<char>>,
}

impl DeepView for Room {
    type V = RoomView;

    open spec fn deep_view(&self) -> RoomView {
        RoomView {
            name: self.name@,
            owner_id: self.owner_id@,
            image: self.image@,
            beds: self.beds,
            description: self.description@,
            location: self.location@,
            price: self.price,
            status: self.status.deep_view(),
            booked_info: self.booked_info.model(),
        }
    }
}

/// A room as its owner sees it listed.
#[derive(Debug)]
pub struct RegisteredRoom {
    pub name: String,
    pub image: String,
    pub beds: u8,
    pub description: String,
    pub location: String,
    pub price: u128,
    pub status: UsageStatus,
}

pub struct RegisteredRoomView {
    pub name: Seq<char>,
    pub image: Seq<char>,
    pub beds: u8,
    pub description: Seq<char>,
    pub location: Seq<char>,
    pub price: u128,
    pub status: StatusView,
}

impl DeepView for RegisteredRoom {
    type V = RegisteredRoomView;

    open spec fn deep_view(&self) -> RegisteredRoomView {
        RegisteredRoomView {
            name: self.name@,
            image: self.image@,
            beds: self.beds,
            description: self.description@,
            location: self.location@,
            price: self.price,
            status: self.status.deep_view(),
        }
    }
}

/// One booking of a room, as its owner sees it.
#[derive(Debug)]
pub struct BookedRoom {
    pub room_id: String,
    pub name: String,
    pub check_in_date: String,
    pub guest_id: String,
    pub status: UsageStatus,
}

pub struct BookedRoomView {
    pub room_id: Seq<char>,
    pub name: Seq<char>,
    pub check_in_date: Seq<char>,
    pub guest_id: Seq<char>,
    pub status: StatusView,
}

impl DeepView for BookedRoom {
    type V = BookedRoomView;

    open spec fn deep_view(&self) -> BookedRoomView {
        BookedRoomView {
            room_id: self.room_id@,
            name: self.name@,
            check_in_date: self.check_in_date@,
            guest_id: self.guest_id@,
            status: self.status.deep_view(),
        }
    }
}

/// One booking, as the guest who made it sees it.
#[derive(Debug)]
pub struct GuestBookedRoom {
    pub owner_id: String,
    pub name: String,
    pub check_in_date: String,
}

pub struct GuestBookedRoomView {
    pub owner_id: Seq<char>,
    pub name: Seq<char>,
    pub check_in_date: Seq<char>,
}

impl DeepView for GuestBookedRoom {
    type V = GuestBookedRoomView;

    open spec fn deep_view(&self) -> GuestBookedRoomView {
        GuestBookedRoomView {
            owner_id: self.owner_id@,
            name: self.name@,
            check_in_date: self.check_in_date@,
        }
    }
}

/// A room that is free to book for a given check-in date.
#[derive(Debug, PartialEq)]
pub struct AvailableRoom {
    pub room_id: String,
    pub owner_id: String,
    pub name: String,
    pub image: String,
    pub beds: u8,
    pub description: String,
    pub location: String,
    pub price: u128,
}

pub struct AvailableRoomView {
    pub room_id: Seq<char>,
    pub owner_id: Seq<char>,
    pub name: Seq<char>,
    pub image: Seq<char>,
    pub beds: u8,
    pub description: Seq<char>,
    pub location: Seq<char>,
    pub price: u128,
}

impl DeepView for AvailableRoom {
    type V = AvailableRoomView;

    open spec fn deep_view(&self) -> AvailableRoomView {
        AvailableRoomView {
            room_id: self.room_id@,
            owner_id: self.owner_id@,
            name: self.name@,
            image: self.image@,
            beds: self.beds,
            description: self.description@,
            location: self.location@,
            price: self.price,
        }
    }
}

/// The payment that a booking forwards: the attached deposit goes to the
/// room's owner.
#[derive(Debug, PartialEq)]
pub struct Transfer {
    pub receiver_id: String,
    pub amount: u128,
}

pub struct TransferView {
    pub receiver_id: Seq<char>,
    pub amount: u128,
}

impl DeepView for Transfer {
    type V = TransferView;

    open spec fn deep_view(&self) -> TransferView {
        TransferView { receiver_id: self.receiver_id@, amount: self.amount }
    }
}

/// Why a request to end a stay is refused.
#[derive(Debug, Clone, Copy, PartialEq, Eq, Structural)]
pub enum ContractError {
    /// No room has the id.
    NotFoundRoom,
    /// The room has no booking for the date.
    NotFoundDate,
    /// The guest has no booking at all.
    NotFoundGuest,
    /// The guest has no booking for the date.
    NotFoundBooked,
}

impl ContractError {
    pub open spec fn text(self) -> Seq<char> {
        match self {
            ContractError::NotFoundRoom => "ERR_NOT_FOUND_ROOM"@,
            ContractError::NotFoundDate => "ERR_NOT_FOUND_DATE"@,
            ContractError::NotFoundGuest => "ERR_NOT_FOUND_GUEST"@,
            ContractError::NotFoundBooked => "ERR_NOT_FOUND_BOOKED"@,
        }
    }

    /// The message that the contract fails with.
    pub fn message(&self) -> (m: &'static str)
        ensures
            m@ == self.text(),
    {
        match self {
            ContractError::NotFoundRoom => "ERR_NOT_FOUND_ROOM",
            ContractError::NotFoundDate => "ERR_NOT_FOUND_DATE",
            ContractError::NotFoundGuest => "ERR_NOT_FOUND_GUEST",
            ContractError::NotFoundBooked => "ERR_NOT_FOUND_BOOKED",
        }
    }
}

} // verus!
