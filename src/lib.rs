//! Migration of Bluetooth pairing credentials between hosts: a snapshot is
//! extracted from the source store, the device is matched against the
//! destination's paired addresses, and its keys are written into the
//! destination store all at once or not at all.
pub mod error;
pub mod keyed;
pub mod mac;
pub mod model;
pub mod order;
pub mod util;

pub mod extract;
pub mod list;

pub mod store;
pub mod reconcile;
pub mod apply;

pub mod cli;
