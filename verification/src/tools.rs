pub mod error;
pub mod hashline;
pub mod files;
pub mod shell;
pub mod ask;
pub mod search;
pub mod replace;
