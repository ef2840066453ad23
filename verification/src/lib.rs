//! Room registration and booking for a hotel: owners list rooms, guests
//! book them for a check-in date, and owners track stays.
pub mod contract;
pub mod laws;
pub mod model;
pub mod strmap;
pub mod types;
