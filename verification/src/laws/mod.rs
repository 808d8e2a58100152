//! The laws of the host zome: what holds of whole runs of its procedures against a
//! DHT, stated over the model of links in `dht` and proved from the procedures'
//! transitions.

pub mod common;
pub mod enabling;
pub mod refusals;
pub mod key_value;
pub mod listing;
pub mod registering;
pub mod composed;
pub mod outcomes;
