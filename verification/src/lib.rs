//! The person-record layer of a team roster dashboard: the record and its
//! requests, their validation, the failure taxonomy, the storage gateway and
//! the four boundary operations built on it.

pub mod clock;
pub mod components;
pub mod database;
pub mod errors;
pub mod modals;
pub mod person;
pub mod serv_functions;
pub mod text;
pub mod toast;
