//! What holds of the front end beyond the contracts of its functions.

pub mod evaluation;
pub mod grammar;
pub mod reading;
pub mod spelling;
