//! What holds of the library as a whole, told in the numbers, names and bytes of the wire.

pub mod assertion;
pub mod info;
pub mod items;
pub mod keys;
pub mod listing;
pub mod pins;
pub mod registration;
pub mod wire;
pub mod words;
