pub mod json;
pub mod text;
pub mod tools;
pub mod util;
pub mod protocol;
pub mod session;
pub mod auth;
pub mod providers;
pub mod agent;
pub mod control;
