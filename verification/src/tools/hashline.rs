pub mod diff;
pub mod edit;
pub mod hash;
pub mod parse;
pub mod read;
pub mod spans;
pub mod guard;
pub mod plan;
