//! An in-memory registry of user records behind a small request dispatcher.
//!
//! `slots` states what is believed of the slab collection and `occupancy`
//! what follows for every slab. `store` is the registry built on it and
//! `history` relates a store to the changes made to it. `text` renders and reads decimal handles, `route` classifies
//! request paths and `service` maps a request to a reply.

pub mod history;
pub mod occupancy;
pub mod record;
pub mod route;
pub mod service;
pub mod slots;
pub mod store;
pub mod text;
