//! What holds of the engine as a whole: laws that relate its operations to one
//! another, each proved from the definitions that the contracts use.

pub mod deletion;
pub mod grouping;
pub mod scanning;
