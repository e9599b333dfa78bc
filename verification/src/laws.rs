//! What holds of the library across its operations.

pub mod accepting;
pub mod adding;
pub mod answering;
pub mod committing;
pub mod contents;
pub mod encoding;
pub mod filling;
pub mod layout;
pub mod numbers;
pub mod reading;
pub mod removing;
pub mod scanning;
pub mod serving;
pub mod sizes;
pub mod storing;
pub mod wording;
